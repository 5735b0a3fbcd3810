//! The worker that drives one task from pending to completed.
//!
//! A worker is a state machine. It owns a little state of its own, shares the job list with the
//! manager, and never waits: each step takes what the last action brought back, changes the job
//! list and the worker, and names the next action. Whoever runs the worker performs the action
//! (a request, a wait, a file operation) and comes back with its outcome.

use crate::config::Settings;
use crate::fetch::{is_expired_link, FetchError, FetchErrorView};
use crate::models::{
    DownloadJob, JobView, PauseReason, Segment, SegmentStatus, TaskStatus, TaskStatusView,
    TaskView,
};
use crate::paths::{parts_folder, parts_folder_name, sanitize, sanitized};
use crate::queue::{find_job, find_task, job_index, task_index};
use crate::segments::{
    after_claim, after_mark, all_completed, all_segments_completed, claim_next, clamp_u64,
    complete_segment, completed_bytes, completed_total, next_claim, parts_for, plan, plan_segments,
    reconcile, reconciled, rewind_segment, segment_len,
};
use crate::text::{contains_seq, joined, opt_str_clone};
use vstd::prelude::*;

verus! {

/// Number of fresh links a worker may ask for in a row before it gives the task up as expired.
pub const MAX_LINK_REFRESH_ATTEMPTS: u32 = 3;

/// Milliseconds a worker waits before it looks for a pending range again.
pub const IDLE_POLL_MILLIS: u64 = 100;

/// Where a worker stands: what it is waiting for.
#[derive(Debug, Clone, Copy, PartialEq, Eq, Structural)]
pub enum Phase {
    /// Not started yet.
    Idle,
    /// Waiting for the resolver to turn a pending link into a real one.
    Resolving,
    /// Waiting for a permit of the concurrency gate.
    Queued,
    /// Waiting for the length of the file.
    Sizing,
    /// Waiting for a fresh link after the length request found the link expired.
    RefreshingSize,
    /// Waiting for the folders to be made.
    Preparing,
    /// Waiting for the sizes of the part files that are already on disk.
    Reconciling,
    /// Waiting for one range to be fetched.
    Fetching,
    /// Waiting for a fresh link after a range request found the link expired.
    RefreshingLink,
    /// Waiting for a pause to pass.
    Waiting,
    /// Waiting for the part files to be joined.
    Combining,
    /// Done; every further event is refused.
    Finished,
}

/// Why a worker stopped.
#[derive(Debug, Clone, Copy, PartialEq, Eq, Structural)]
pub enum ExitReason {
    /// There is no job with the worker's job id.
    JobNotFound,
    /// The job has no task with the worker's task id.
    TaskNotFound,
    /// The task was not pending when the worker started.
    NotPending,
    /// The task failed; its status holds the message.
    Failed,
    /// The link expired and could not be refreshed; the task is paused for it.
    LinkExpired,
    /// The transfer was cancelled at the user's request.
    Paused,
    /// The task was found paused, failed or completed between two ranges.
    Stopped,
    /// The job or the task was removed while the worker ran.
    Gone,
    /// The file is complete.
    Completed,
    /// The part files could not be joined; they are kept for the next run.
    ReassemblyFailed,
    /// An event came that the worker was not waiting for.
    Unexpected,
}

/// What a worker asks its runner to do next.
#[derive(Debug, Clone, Copy, PartialEq, Eq, Structural)]
pub enum WorkerAction {
    /// Stop: give the permit back and end the progress ticker.
    Exit(ExitReason),
    /// Ask the resolver for a link, from the worker's episode data.
    Resolve,
    /// Wait for a permit of the concurrency gate.
    AcquirePermit,
    /// Find out the length of the file behind the worker's link.
    DiscoverLength,
    /// Make the job's folder and the folder for the part files.
    CreateFolders,
    /// Report the size of the part file of every range of the task, in the order of its ranges.
    StatParts,
    /// Fetch the worker's current range into its part file.
    FetchRange,
    /// Wait for so many milliseconds.
    Sleep(u64),
    /// Join the part files of the task, in the order of its ranges, into the final file.
    Combine,
}

/// What a worker asks its runner to remove before the next action.
#[derive(Debug, Clone, Copy, PartialEq, Eq, Structural)]
pub enum Discard {
    Nothing,
    /// The part file of the range with this number.
    Part(usize),
    /// The folder of part files, with all that is in it.
    PartsFolder,
}

/// The outcome of one step of a worker.
#[derive(Debug, Clone, Copy, PartialEq, Eq, Structural)]
pub struct Step {
    /// What to do next.
    pub action: WorkerAction,
    /// Whether the job list changed and is to be written to the ledger.
    pub persist: bool,
    /// What to remove from disk first.
    pub discard: Discard,
}

/// The state that a worker keeps to itself.
#[derive(Debug)]
pub struct TaskWorker {
    pub job_id: String,
    pub task_id: String,
    pub phase: Phase,
    /// The link in use.
    pub url: String,
    pub user_agent: String,
    pub segments_per_file: usize,
    pub episode_url: Option<String>,
    pub gate_id: Option<String>,
    pub episode_number: Option<u32>,
    /// Name of the job's folder under the download folder.
    pub job_folder: String,
    /// Name of the final file in the job's folder.
    pub file_name: String,
    /// Name of the folder of part files in the job's folder.
    pub parts_folder: String,
    /// Fresh links asked for while the length was sought.
    pub size_refresh_attempts: u32,
    /// Fresh links asked for since the last range that was fetched in full.
    pub link_refresh_attempts: u32,
    /// Transient failures since the last range that was fetched in full.
    pub backoff_step: u32,
    /// The range in flight.
    pub current: Option<Segment>,
}

/// View of a [`TaskWorker`].
pub struct WorkerView {
    pub job_id: Seq<char>,
    pub task_id: Seq<char>,
    pub phase: Phase,
    pub url: Seq<char>,
    pub user_agent: Seq<char>,
    pub segments_per_file: usize,
    pub episode_url: Option<Seq<char>>,
    pub gate_id: Option<Seq<char>>,
    pub episode_number: Option<u32>,
    pub job_folder: Seq<char>,
    pub file_name: Seq<char>,
    pub parts_folder: Seq<char>,
    pub size_refresh_attempts: u32,
    pub link_refresh_attempts: u32,
    pub backoff_step: u32,
    pub current: Option<Segment>,
}

impl WorkerView {
    /// Whether the worker holds what a resolver needs to refresh its link.
    pub open spec fn refreshable(self) -> bool {
        self.episode_url is Some && self.gate_id is Some
    }
}

impl View for TaskWorker {
    type V = WorkerView;

    open spec fn view(&self) -> WorkerView {
        WorkerView {
            job_id: self.job_id@,
            task_id: self.task_id@,
            phase: self.phase,
            url: self.url@,
            user_agent: self.user_agent@,
            segments_per_file: self.segments_per_file,
            episode_url: self.episode_url.deep_view(),
            gate_id: self.gate_id.deep_view(),
            episode_number: self.episode_number,
            job_folder: self.job_folder@,
            file_name: self.file_name@,
            parts_folder: self.parts_folder@,
            size_refresh_attempts: self.size_refresh_attempts,
            link_refresh_attempts: self.link_refresh_attempts,
            backoff_step: self.backoff_step,
            current: self.current,
        }
    }
}

impl DeepView for TaskWorker {
    type V = WorkerView;

    open spec fn deep_view(&self) -> WorkerView {
        self@
    }
}

/// A worker that has not started, for the task `task_id` of the job `job_id`.
pub open spec fn fresh_worker(job_id: Seq<char>, task_id: Seq<char>) -> WorkerView {
    WorkerView {
        job_id,
        task_id,
        phase: Phase::Idle,
        url: Seq::empty(),
        user_agent: Seq::empty(),
        segments_per_file: 1,
        episode_url: None,
        gate_id: None,
        episode_number: None,
        job_folder: Seq::empty(),
        file_name: Seq::empty(),
        parts_folder: Seq::empty(),
        size_refresh_attempts: 0,
        link_refresh_attempts: 0,
        backoff_step: 0,
        current: None,
    }
}

impl TaskWorker {
    /// A worker for the task `task_id` of the job `job_id`, not started yet.
    pub fn new(job_id: String, task_id: String) -> (worker: TaskWorker)
        ensures
            worker@ == fresh_worker(job_id@, task_id@),
    {
        TaskWorker {
            job_id,
            task_id,
            phase: Phase::Idle,
            url: String::new(),
            user_agent: String::new(),
            segments_per_file: 1,
            episode_url: None,
            gate_id: None,
            episode_number: None,
            job_folder: String::new(),
            file_name: String::new(),
            parts_folder: String::new(),
            size_refresh_attempts: 0,
            link_refresh_attempts: 0,
            backoff_step: 0,
            current: None,
        }
    }
}

/// The job list and the worker after a step, and what the step asks for.
pub struct Transition {
    pub jobs: Seq<JobView>,
    pub worker: WorkerView,
    pub step: Step,
}

/// Positions of the worker's job and, in it, of the worker's task.
pub open spec fn located(jobs: Seq<JobView>, job_id: Seq<char>, task_id: Seq<char>) -> Option<
    (int, int),
> {
    match find_job(jobs, job_id) {
        Some(j) => match find_task(jobs[j].tasks, task_id) {
            Some(t) => Some((j, t)),
            None => None,
        },
        None => None,
    }
}

/// The job list with the task at position `t` of the job at position `j` replaced.
pub open spec fn put_task(jobs: Seq<JobView>, j: int, t: int, task: TaskView) -> Seq<JobView> {
    jobs.update(j, JobView { tasks: jobs[j].tasks.update(t, task), ..jobs[j] })
}

/// The worker stops.
pub open spec fn stop(
    jobs: Seq<JobView>,
    w: WorkerView,
    reason: ExitReason,
    persist: bool,
    discard: Discard,
) -> Transition {
    Transition {
        jobs,
        worker: WorkerView { phase: Phase::Finished, current: None, ..w },
        step: Step { action: WorkerAction::Exit(reason), persist, discard },
    }
}

/// The worker goes on to wait in `phase` for the outcome of `action`.
pub open spec fn proceed(
    jobs: Seq<JobView>,
    w: WorkerView,
    phase: Phase,
    action: WorkerAction,
    persist: bool,
    discard: Discard,
) -> Transition {
    Transition {
        jobs,
        worker: WorkerView { phase, ..w },
        step: Step { action, persist, discard },
    }
}

/// The worker's task gets the status `status` and the worker stops.
pub open spec fn stop_with_status(
    jobs: Seq<JobView>,
    w: WorkerView,
    status: TaskStatusView,
    reason: ExitReason,
    discard: Discard,
) -> Transition {
    match located(jobs, w.job_id, w.task_id) {
        Some((j, t)) => stop(
            put_task(jobs, j, t, TaskView { status, ..jobs[j].tasks[t] }),
            w,
            reason,
            true,
            discard,
        ),
        None => stop(jobs, w, ExitReason::Gone, false, discard),
    }
}

/// A job list in which one task changed and nothing else did is the old list with that task put
/// in its place.
pub proof fn lemma_put_task(
    before: Vec<DownloadJob>,
    after: Vec<DownloadJob>,
    j: int,
    t: int,
    task: TaskView,
)
    requires
        0 <= j < before.len(),
        after.len() == before.len(),
        forall|i: int| 0 <= i < before.len() && i != j ==> after@[i]@ == before@[i]@,
        after@[j].id@ == before@[j].id@,
        after@[j].name@ == before@[j].name@,
        0 <= t < before@[j].tasks.len(),
        after@[j].tasks.len() == before@[j].tasks.len(),
        forall|k: int|
            0 <= k < before@[j].tasks.len() && k != t ==> after@[j].tasks@[k]@
                == before@[j].tasks@[k]@,
        after@[j].tasks@[t]@ == task,
    ensures
        after.deep_view() == put_task(before.deep_view(), j, t, task),
{
    assert(after@[j]@.tasks =~= before@[j]@.tasks.update(t, task));
    assert(after.deep_view() =~= put_task(before.deep_view(), j, t, task));
}

fn locate(jobs: &Vec<DownloadJob>, job_id: &String, task_id: &String) -> (found: Option<
    (usize, usize),
>)
    ensures
        match found {
            Some((j, t)) => located(jobs.deep_view(), job_id@, task_id@) == Some((j as int, t as int))
                && j < jobs.len() && t < jobs@[j as int].tasks.len(),
            None => located(jobs.deep_view(), job_id@, task_id@) is None,
        },
{
    match job_index(jobs, job_id) {
        Some(j) => match task_index(&jobs[j].tasks, task_id) {
            Some(t) => Some((j, t)),
            None => None,
        },
        None => None,
    }
}

fn finish(worker: &mut TaskWorker, reason: ExitReason, persist: bool, discard: Discard) -> (step:
    Step)
    ensures
        final(worker)@ == (WorkerView { phase: Phase::Finished, current: None, ..old(worker)@ }),
        step == (Step { action: WorkerAction::Exit(reason), persist, discard }),
{
    worker.phase = Phase::Finished;
    worker.current = None;
    Step { action: WorkerAction::Exit(reason), persist, discard }
}

fn finish_with_status(
    jobs: &mut Vec<DownloadJob>,
    worker: &mut TaskWorker,
    status: TaskStatus,
    reason: ExitReason,
    discard: Discard,
) -> (step: Step)
    ensures
        (Transition { jobs: final(jobs).deep_view(), worker: final(worker)@, step })
            == stop_with_status(old(jobs).deep_view(), old(worker)@, status@, reason, discard),
{
    match locate(jobs, &worker.job_id, &worker.task_id) {
        Some((j, t)) => {
            jobs[j].tasks[t].status = status;
            proof {
                lemma_put_task(
                    *old(jobs),
                    *jobs,
                    j as int,
                    t as int,
                    TaskView { status: status@, ..old(jobs)@[j as int].tasks@[t as int]@ },
                );
            }
            finish(worker, reason, true, discard)
        },
        None => finish(worker, ExitReason::Gone, false, discard),
    }
}

/// Milliseconds to wait before the retry that follows the `step`-th transient failure in a row:
/// 250 doubled `step` times, and never more than four times.
pub open spec fn backoff_millis_spec(step: u32) -> u64 {
    if step == 0 {
        250
    } else if step == 1 {
        500
    } else if step == 2 {
        1000
    } else if step == 3 {
        2000
    } else {
        4000
    }
}

/// Milliseconds to wait before the retry that follows the `step`-th transient failure in a row.
pub fn backoff_millis(step: u32) -> (millis: u64)
    ensures
        millis == backoff_millis_spec(step),
{
    let capped: u32 = if step < 4 {
        step
    } else {
        4
    };
    let mut millis: u64 = 250;
    let mut i: u32 = 0;
    while i < capped
        invariant
            i <= capped <= 4,
            millis == backoff_millis_spec(i),
        decreases capped - i,
    {
        millis = millis * 2;
        i = i + 1;
    }
    millis
}

/// The worker as it is once it has taken its task on: it holds the task's link and episode data
/// and the names under which the file and its parts are stored.
pub open spec fn admitted(w: WorkerView, job: JobView, task: TaskView) -> WorkerView {
    WorkerView {
        url: task.url,
        episode_url: task.episode_url,
        gate_id: task.gate_id,
        episode_number: task.episode_number,
        job_folder: sanitized(job.name),
        file_name: sanitized(task.filename),
        parts_folder: parts_folder(sanitized(task.filename)),
        ..w
    }
}

/// The first step of a worker. It stops at once where its job or task is missing or the task is
/// not pending. A task with a real link goes on to wait for a permit. A task whose link is
/// `pending` has it resolved first, which takes all of its episode data; without them the task
/// fails.
pub open spec fn after_start(jobs: Seq<JobView>, w: WorkerView) -> Transition {
    if w.phase != Phase::Idle {
        stop(jobs, w, ExitReason::Unexpected, false, Discard::Nothing)
    } else {
        match find_job(jobs, w.job_id) {
            None => stop(jobs, w, ExitReason::JobNotFound, false, Discard::Nothing),
            Some(j) => match find_task(jobs[j].tasks, w.task_id) {
                None => stop(jobs, w, ExitReason::TaskNotFound, false, Discard::Nothing),
                Some(t) => {
                    let task = jobs[j].tasks[t];
                    let taken = admitted(w, jobs[j], task);
                    if !(task.status is Pending) {
                        stop(jobs, w, ExitReason::NotPending, false, Discard::Nothing)
                    } else if task.url != "pending"@ {
                        proceed(
                            jobs,
                            taken,
                            Phase::Queued,
                            WorkerAction::AcquirePermit,
                            false,
                            Discard::Nothing,
                        )
                    } else if task.refreshable() && task.episode_number is Some {
                        proceed(
                            jobs,
                            taken,
                            Phase::Resolving,
                            WorkerAction::Resolve,
                            false,
                            Discard::Nothing,
                        )
                    } else {
                        stop_with_status(
                            jobs,
                            taken,
                            TaskStatusView::Error("Checking pending URL: Missing episode metadata"@),
                            ExitReason::Failed,
                            Discard::Nothing,
                        )
                    }
                },
            },
        }
    }
}

/// Starts a worker.
pub fn begin(jobs: &mut Vec<DownloadJob>, worker: &mut TaskWorker) -> (step: Step)
    ensures
        (Transition { jobs: final(jobs).deep_view(), worker: final(worker)@, step }) == after_start(
            old(jobs).deep_view(),
            old(worker)@,
        ),
{
    if worker.phase != Phase::Idle {
        return finish(worker, ExitReason::Unexpected, false, Discard::Nothing);
    }
    let j = match job_index(jobs, &worker.job_id) {
        Some(j) => j,
        None => {
            return finish(worker, ExitReason::JobNotFound, false, Discard::Nothing);
        },
    };
    let t = match task_index(&jobs[j].tasks, &worker.task_id) {
        Some(t) => t,
        None => {
            return finish(worker, ExitReason::TaskNotFound, false, Discard::Nothing);
        },
    };
    let job = &jobs[j];
    let task = &job.tasks[t];
    if !matches!(task.status, TaskStatus::Pending) {
        return finish(worker, ExitReason::NotPending, false, Discard::Nothing);
    }
    worker.url = task.url.clone();
    worker.episode_url = opt_str_clone(&task.episode_url);
    worker.gate_id = opt_str_clone(&task.gate_id);
    worker.episode_number = task.episode_number;
    worker.job_folder = sanitize(job.name.as_str());
    worker.file_name = sanitize(task.filename.as_str());
    worker.parts_folder = parts_folder_name(worker.file_name.as_str());
    let pending = "pending".to_string();
    if worker.url != pending {
        worker.phase = Phase::Queued;
        Step { action: WorkerAction::AcquirePermit, persist: false, discard: Discard::Nothing }
    } else if worker.episode_url.is_some() && worker.gate_id.is_some()
        && worker.episode_number.is_some() {
        worker.phase = Phase::Resolving;
        Step { action: WorkerAction::Resolve, persist: false, discard: Discard::Nothing }
    } else {
        finish_with_status(
            jobs,
            worker,
            TaskStatus::Error("Checking pending URL: Missing episode metadata".to_string()),
            ExitReason::Failed,
            Discard::Nothing,
        )
    }
}

/// The head of the loop over the ranges. The worker stops where its task is gone, or is found
/// paused, failed or completed. Otherwise it claims the first pending range and fetches it; with
/// no range pending it joins the parts where every range is completed, and waits a moment where
/// not.
pub open spec fn next_range(jobs: Seq<JobView>, w: WorkerView, persist: bool, discard: Discard)
    -> Transition {
    match located(jobs, w.job_id, w.task_id) {
        None => stop(jobs, w, ExitReason::Gone, persist, discard),
        Some((j, t)) => {
            let task = jobs[j].tasks[t];
            if task.status is Paused || task.status is Error || task.status is Completed {
                stop(jobs, w, ExitReason::Stopped, persist, discard)
            } else {
                match next_claim(task.segments) {
                    Some(range) => proceed(
                        put_task(
                            jobs,
                            j,
                            t,
                            TaskView { segments: after_claim(task.segments), ..task },
                        ),
                        WorkerView { current: Some(range), ..w },
                        Phase::Fetching,
                        WorkerAction::FetchRange,
                        persist,
                        discard,
                    ),
                    None => if all_completed(task.segments) {
                        proceed(
                            jobs,
                            WorkerView { current: None, ..w },
                            Phase::Combining,
                            WorkerAction::Combine,
                            persist,
                            discard,
                        )
                    } else {
                        proceed(
                            jobs,
                            WorkerView { current: None, ..w },
                            Phase::Waiting,
                            WorkerAction::Sleep(IDLE_POLL_MILLIS),
                            persist,
                            discard,
                        )
                    },
                }
            }
        },
    }
}

fn advance(jobs: &mut Vec<DownloadJob>, worker: &mut TaskWorker, persist: bool, discard: Discard)
    -> (step: Step)
    ensures
        (Transition { jobs: final(jobs).deep_view(), worker: final(worker)@, step }) == next_range(
            old(jobs).deep_view(),
            old(worker)@,
            persist,
            discard,
        ),
{
    let (j, t) = match locate(jobs, &worker.job_id, &worker.task_id) {
        Some(found) => found,
        None => {
            return finish(worker, ExitReason::Gone, persist, discard);
        },
    };
    if matches!(
        jobs[j].tasks[t].status,
        TaskStatus::Paused(_) | TaskStatus::Error(_) | TaskStatus::Completed
    ) {
        return finish(worker, ExitReason::Stopped, persist, discard);
    }
    let ghost task = old(jobs).deep_view()[j as int].tasks[t as int];
    match claim_next(&mut jobs[j].tasks[t].segments) {
        Some(range) => {
            proof {
                lemma_put_task(
                    *old(jobs),
                    *jobs,
                    j as int,
                    t as int,
                    TaskView { segments: after_claim(task.segments), ..task },
                );
            }
            worker.current = Some(range);
            worker.phase = Phase::Fetching;
            Step { action: WorkerAction::FetchRange, persist, discard }
        },
        None => {
            assert(jobs.deep_view() =~= old(jobs).deep_view()) by {
                lemma_put_task(*old(jobs), *jobs, j as int, t as int, task);
                assert(put_task(old(jobs).deep_view(), j as int, t as int, task) =~= old(
                    jobs,
                ).deep_view()) by {
                    assert(old(jobs).deep_view()[j as int].tasks.update(t as int, task) =~= old(
                        jobs,
                    ).deep_view()[j as int].tasks);
                }
            }
            worker.current = None;
            if all_segments_completed(&jobs[j].tasks[t].segments) {
                worker.phase = Phase::Combining;
                Step { action: WorkerAction::Combine, persist, discard }
            } else {
                worker.phase = Phase::Waiting;
                Step { action: WorkerAction::Sleep(IDLE_POLL_MILLIS), persist, discard }
            }
        },
    }
}

/// The job list after the worker's task, where it is still there, took the link `url`.
pub open spec fn with_url(jobs: Seq<JobView>, w: WorkerView, url: Seq<char>) -> Seq<JobView> {
    match located(jobs, w.job_id, w.task_id) {
        Some((j, t)) => put_task(jobs, j, t, TaskView { url, ..jobs[j].tasks[t] }),
        None => jobs,
    }
}

fn store_url(jobs: &mut Vec<DownloadJob>, worker: &mut TaskWorker, url: String)
    ensures
        final(jobs).deep_view() == with_url(old(jobs).deep_view(), old(worker)@, url@),
        final(worker)@ == (WorkerView { url: url@, ..old(worker)@ }),
{
    match locate(jobs, &worker.job_id, &worker.task_id) {
        Some((j, t)) => {
            jobs[j].tasks[t].url = url.clone();
            proof {
                lemma_put_task(
                    *old(jobs),
                    *jobs,
                    j as int,
                    t as int,
                    TaskView { url: url@, ..old(jobs)@[j as int].tasks@[t as int]@ },
                );
            }
        },
        None => {},
    }
    worker.url = url;
}

/// The step after the resolver answered. A link that was resolved is stored in the task and in
/// the worker, and the worker goes on where it had stopped for it: to wait for a permit, to the length
/// request, or to the next range. A failure of the first resolution fails the task; a failure of
/// a refresh pauses it as expired.
pub open spec fn after_resolved(
    jobs: Seq<JobView>,
    w: WorkerView,
    outcome: Result<Seq<char>, Seq<char>>,
) -> Transition {
    match w.phase {
        Phase::Resolving => match outcome {
            Ok(url) => proceed(
                with_url(jobs, w, url),
                WorkerView { url, ..w },
                Phase::Queued,
                WorkerAction::AcquirePermit,
                true,
                Discard::Nothing,
            ),
            Err(message) => stop_with_status(
                jobs,
                w,
                TaskStatusView::Error("Failed to resolve link: "@ + message),
                ExitReason::Failed,
                Discard::Nothing,
            ),
        },
        Phase::RefreshingSize => match outcome {
            Ok(url) => proceed(
                with_url(jobs, w, url),
                WorkerView { url, ..w },
                Phase::Sizing,
                WorkerAction::DiscoverLength,
                true,
                Discard::Nothing,
            ),
            Err(_) => stop_with_status(
                jobs,
                w,
                TaskStatusView::Paused(PauseReason::LinkExpired),
                ExitReason::LinkExpired,
                Discard::Nothing,
            ),
        },
        Phase::RefreshingLink => match outcome {
            Ok(url) => next_range(
                with_url(jobs, w, url),
                WorkerView { url, ..w },
                true,
                Discard::Nothing,
            ),
            Err(_) => stop_with_status(
                jobs,
                w,
                TaskStatusView::Paused(PauseReason::LinkExpired),
                ExitReason::LinkExpired,
                Discard::Nothing,
            ),
        },
        _ => stop(jobs, w, ExitReason::Unexpected, false, Discard::Nothing),
    }
}

/// View of what a resolver answered: a link, or the message of its failure.
pub open spec fn resolution_view(outcome: Result<String, String>) -> Result<Seq<char>, Seq<char>> {
    match outcome {
        Ok(url) => Ok(url@),
        Err(message) => Err(message@),
    }
}

/// Takes the answer of the resolver.
pub fn resolved(
    jobs: &mut Vec<DownloadJob>,
    worker: &mut TaskWorker,
    outcome: Result<String, String>,
) -> (step: Step)
    ensures
        (Transition { jobs: final(jobs).deep_view(), worker: final(worker)@, step })
            == after_resolved(old(jobs).deep_view(), old(worker)@, resolution_view(outcome)),
{
    match worker.phase {
        Phase::Resolving => match outcome {
            Ok(url) => {
                store_url(jobs, worker, url);
                worker.phase = Phase::Queued;
                Step { action: WorkerAction::AcquirePermit, persist: true, discard: Discard::Nothing }
            },
            Err(message) => {
                let text = joined("Failed to resolve link: ", message.as_str());
                finish_with_status(
                    jobs,
                    worker,
                    TaskStatus::Error(text),
                    ExitReason::Failed,
                    Discard::Nothing,
                )
            },
        },
        Phase::RefreshingSize => match outcome {
            Ok(url) => {
                store_url(jobs, worker, url);
                worker.phase = Phase::Sizing;
                Step { action: WorkerAction::DiscoverLength, persist: true, discard: Discard::Nothing }
            },
            Err(_) => finish_with_status(
                jobs,
                worker,
                TaskStatus::Paused(PauseReason::LinkExpired),
                ExitReason::LinkExpired,
                Discard::Nothing,
            ),
        },
        Phase::RefreshingLink => match outcome {
            Ok(url) => {
                store_url(jobs, worker, url);
                advance(jobs, worker, true, Discard::Nothing)
            },
            Err(_) => finish_with_status(
                jobs,
                worker,
                TaskStatus::Paused(PauseReason::LinkExpired),
                ExitReason::LinkExpired,
                Discard::Nothing,
            ),
        },
        _ => finish(worker, ExitReason::Unexpected, false, Discard::Nothing),
    }
}

/// The step after a permit was granted: the worker takes the user agent and the number of
/// ranges from the settings as they are now, and asks for the length of the file.
pub open spec fn after_permit(jobs: Seq<JobView>, w: WorkerView, settings: crate::config::SettingsView)
    -> Transition {
    if w.phase == Phase::Queued {
        proceed(
            jobs,
            WorkerView {
                user_agent: settings.user_agent,
                segments_per_file: settings.segments_per_file,
                ..w
            },
            Phase::Sizing,
            WorkerAction::DiscoverLength,
            false,
            Discard::Nothing,
        )
    } else {
        stop(jobs, w, ExitReason::Unexpected, false, Discard::Nothing)
    }
}

/// Takes the permit of the concurrency gate.
pub fn permitted(jobs: &Vec<DownloadJob>, worker: &mut TaskWorker, settings: &Settings) -> (step:
    Step)
    ensures
        (Transition { jobs: jobs.deep_view(), worker: final(worker)@, step }) == after_permit(
            jobs.deep_view(),
            old(worker)@,
            settings@,
        ),
{
    if worker.phase == Phase::Queued {
        worker.user_agent = settings.user_agent.clone();
        worker.segments_per_file = settings.segments_per_file;
        worker.phase = Phase::Sizing;
        Step { action: WorkerAction::DiscoverLength, persist: false, discard: Discard::Nothing }
    } else {
        finish(worker, ExitReason::Unexpected, false, Discard::Nothing)
    }
}

/// What the worker does about an expired link: it asks for a fresh one while it has asked fewer
/// than three times and holds the episode data that the resolver needs; else it pauses the task
/// as expired and stops. `attempts` counts the fresh links asked for so far; `refreshing` is the
/// phase in which the worker waits for the resolver.
pub open spec fn on_expired(
    jobs: Seq<JobView>,
    w: WorkerView,
    attempts: u32,
    refreshing: Phase,
    persist: bool,
    discard: Discard,
) -> Transition {
    if attempts < MAX_LINK_REFRESH_ATTEMPTS && w.refreshable() {
        proceed(
            jobs,
            if refreshing == Phase::RefreshingSize {
                WorkerView { size_refresh_attempts: (attempts + 1) as u32, ..w }
            } else {
                WorkerView { link_refresh_attempts: (attempts + 1) as u32, ..w }
            },
            refreshing,
            WorkerAction::Resolve,
            persist,
            discard,
        )
    } else {
        stop_with_status(
            jobs,
            w,
            TaskStatusView::Paused(PauseReason::LinkExpired),
            ExitReason::LinkExpired,
            discard,
        )
    }
}

/// The worker's task once the length of its file is known: it holds the length, and a plan of
/// ranges where it had none. A plan that is there is kept, whatever the settings say now.
pub open spec fn sized_task(task: TaskView, size: u64, wanted: usize) -> TaskView {
    TaskView {
        total_bytes: size,
        segments: if task.segments.len() == 0 {
            plan(size, parts_for(size, wanted))
        } else {
            task.segments
        },
        ..task
    }
}

/// The step after the length request came back. A positive length is stored, the ranges are
/// planned where there are none, and the folders are made next. A length of zero counts as no
/// length. A failure whose message tells of an expired link is handled as `on_expired` says;
/// every other failure fails the task with its message.
pub open spec fn after_length(
    jobs: Seq<JobView>,
    w: WorkerView,
    outcome: Result<u64, FetchErrorView>,
) -> Transition {
    if w.phase != Phase::Sizing {
        stop(jobs, w, ExitReason::Unexpected, false, Discard::Nothing)
    } else {
        match outcome {
            Ok(size) => if size == 0 {
                stop_with_status(
                    jobs,
                    w,
                    TaskStatusView::Error(FetchErrorView::CannotDetermineSize.message()),
                    ExitReason::Failed,
                    Discard::Nothing,
                )
            } else {
                match located(jobs, w.job_id, w.task_id) {
                    Some((j, t)) => proceed(
                        put_task(jobs, j, t, sized_task(jobs[j].tasks[t], size, w.segments_per_file)),
                        w,
                        Phase::Preparing,
                        WorkerAction::CreateFolders,
                        true,
                        Discard::Nothing,
                    ),
                    None => stop(jobs, w, ExitReason::Gone, false, Discard::Nothing),
                }
            },
            Err(e) => if contains_seq(e.message(), "ExpiredLink"@) {
                on_expired(
                    jobs,
                    w,
                    w.size_refresh_attempts,
                    Phase::RefreshingSize,
                    false,
                    Discard::Nothing,
                )
            } else {
                stop_with_status(
                    jobs,
                    w,
                    TaskStatusView::Error(e.message()),
                    ExitReason::Failed,
                    Discard::Nothing,
                )
            },
        }
    }
}

/// Takes the outcome of the length request.
pub fn measured(
    jobs: &mut Vec<DownloadJob>,
    worker: &mut TaskWorker,
    outcome: Result<u64, FetchError>,
) -> (step: Step)
    ensures
        (Transition { jobs: final(jobs).deep_view(), worker: final(worker)@, step }) == after_length(
            old(jobs).deep_view(),
            old(worker)@,
            crate::fetch::length_view(outcome),
        ),
{
    if worker.phase != Phase::Sizing {
        return finish(worker, ExitReason::Unexpected, false, Discard::Nothing);
    }
    match outcome {
        Ok(size) => {
            if size == 0 {
                return finish_with_status(
                    jobs,
                    worker,
                    TaskStatus::Error(FetchError::CannotDetermineSize.message()),
                    ExitReason::Failed,
                    Discard::Nothing,
                );
            }
            match locate(jobs, &worker.job_id, &worker.task_id) {
                Some((j, t)) => {
                    jobs[j].tasks[t].total_bytes = size;
                    if jobs[j].tasks[t].segments.len() == 0 {
                        jobs[j].tasks[t].segments = plan_segments(size, worker.segments_per_file);
                    }
                    proof {
                        lemma_put_task(
                            *old(jobs),
                            *jobs,
                            j as int,
                            t as int,
                            sized_task(
                                old(jobs)@[j as int].tasks@[t as int]@,
                                size,
                                worker.segments_per_file,
                            ),
                        );
                    }
                    worker.phase = Phase::Preparing;
                    Step {
                        action: WorkerAction::CreateFolders,
                        persist: true,
                        discard: Discard::Nothing,
                    }
                },
                None => finish(worker, ExitReason::Gone, false, Discard::Nothing),
            }
        },
        Err(e) => {
            let message = e.message();
            if is_expired_link(message.as_str()) {
                if worker.size_refresh_attempts < MAX_LINK_REFRESH_ATTEMPTS
                    && worker.episode_url.is_some() && worker.gate_id.is_some() {
                    worker.size_refresh_attempts = worker.size_refresh_attempts + 1;
                    worker.phase = Phase::RefreshingSize;
                    Step { action: WorkerAction::Resolve, persist: false, discard: Discard::Nothing }
                } else {
                    finish_with_status(
                        jobs,
                        worker,
                        TaskStatus::Paused(PauseReason::LinkExpired),
                        ExitReason::LinkExpired,
                        Discard::Nothing,
                    )
                }
            } else {
                finish_with_status(
                    jobs,
                    worker,
                    TaskStatus::Error(message),
                    ExitReason::Failed,
                    Discard::Nothing,
                )
            }
        },
    }
}

/// The step after the folders were made: the part files on disk are looked at next. Where the
/// folders could not be made the task fails with the message of the failure.
pub open spec fn after_folders(jobs: Seq<JobView>, w: WorkerView, outcome: Result<(), Seq<char>>)
    -> Transition {
    if w.phase != Phase::Preparing {
        stop(jobs, w, ExitReason::Unexpected, false, Discard::Nothing)
    } else {
        match outcome {
            Ok(_) => proceed(
                jobs,
                w,
                Phase::Reconciling,
                WorkerAction::StatParts,
                false,
                Discard::Nothing,
            ),
            Err(message) => stop_with_status(
                jobs,
                w,
                TaskStatusView::Error(message),
                ExitReason::Failed,
                Discard::Nothing,
            ),
        }
    }
}

/// View of the outcome of a file operation: done, or the message of its failure.
pub open spec fn done_view(outcome: Result<(), String>) -> Result<(), Seq<char>> {
    match outcome {
        Ok(_) => Ok(()),
        Err(message) => Err(message@),
    }
}

/// Takes the outcome of making the folders.
pub fn prepared(jobs: &mut Vec<DownloadJob>, worker: &mut TaskWorker, outcome: Result<(), String>)
    -> (step: Step)
    ensures
        (Transition { jobs: final(jobs).deep_view(), worker: final(worker)@, step })
            == after_folders(old(jobs).deep_view(), old(worker)@, done_view(outcome)),
{
    if worker.phase != Phase::Preparing {
        return finish(worker, ExitReason::Unexpected, false, Discard::Nothing);
    }
    match outcome {
        Ok(_) => {
            worker.phase = Phase::Reconciling;
            Step { action: WorkerAction::StatParts, persist: false, discard: Discard::Nothing }
        },
        Err(message) => finish_with_status(
            jobs,
            worker,
            TaskStatus::Error(message),
            ExitReason::Failed,
            Discard::Nothing,
        ),
    }
}

/// The step after the part files on disk were looked at. Every range whose part file is there in
/// full is completed; the task is downloading, under the name that its file gets on disk; and
/// the worker turns to the first pending range.
pub open spec fn after_part_sizes(jobs: Seq<JobView>, w: WorkerView, sizes: Seq<Option<u64>>)
    -> Transition {
    if w.phase != Phase::Reconciling {
        stop(jobs, w, ExitReason::Unexpected, false, Discard::Nothing)
    } else {
        match located(jobs, w.job_id, w.task_id) {
            Some((j, t)) => next_range(
                put_task(
                    jobs,
                    j,
                    t,
                    TaskView {
                        segments: reconciled(jobs[j].tasks[t].segments, sizes),
                        status: TaskStatusView::Downloading,
                        filename: w.file_name,
                        ..jobs[j].tasks[t]
                    },
                ),
                w,
                true,
                Discard::Nothing,
            ),
            None => stop(jobs, w, ExitReason::Gone, false, Discard::Nothing),
        }
    }
}

/// Takes the sizes of the part files on disk: `sizes[i]` for the range at position `i` of the
/// task, `None` where it has no part file.
pub fn reconciled_with(
    jobs: &mut Vec<DownloadJob>,
    worker: &mut TaskWorker,
    sizes: &Vec<Option<u64>>,
) -> (step: Step)
    ensures
        (Transition { jobs: final(jobs).deep_view(), worker: final(worker)@, step })
            == after_part_sizes(old(jobs).deep_view(), old(worker)@, sizes@),
{
    if worker.phase != Phase::Reconciling {
        return finish(worker, ExitReason::Unexpected, false, Discard::Nothing);
    }
    match locate(jobs, &worker.job_id, &worker.task_id) {
        Some((j, t)) => {
            let ghost task = old(jobs)@[j as int].tasks@[t as int]@;
            reconcile(&mut jobs[j].tasks[t].segments, sizes);
            jobs[j].tasks[t].status = TaskStatus::Downloading;
            jobs[j].tasks[t].filename = worker.file_name.clone();
            proof {
                lemma_put_task(
                    *old(jobs),
                    *jobs,
                    j as int,
                    t as int,
                    TaskView {
                        segments: reconciled(task.segments, sizes@),
                        status: TaskStatusView::Downloading,
                        filename: worker.file_name@,
                        ..task
                    },
                );
            }
            advance(jobs, worker, true, Discard::Nothing)
        },
        None => finish(worker, ExitReason::Gone, false, Discard::Nothing),
    }
}

/// The job list after the first range numbered `index` of the worker's task, where there is
/// one, was put back in line.
pub open spec fn with_rewound(jobs: Seq<JobView>, w: WorkerView, index: usize) -> Seq<JobView> {
    match located(jobs, w.job_id, w.task_id) {
        Some((j, t)) => put_task(
            jobs,
            j,
            t,
            TaskView {
                segments: after_mark(jobs[j].tasks[t].segments, index, SegmentStatus::Pending, None),
                ..jobs[j].tasks[t]
            },
        ),
        None => jobs,
    }
}

/// The step after the fetch of the worker's range came back.
///
/// On success the range is completed, the progress of the task is the total of its completed
/// ranges, the counters of refreshes and of transient failures start again from zero, and the
/// worker turns to the next range.
///
/// On failure the part file is removed and the range is put back in line. Then, by the message
/// of the failure: a pause by the user stops the worker and leaves the status of the task alone;
/// an expired link is handled as `on_expired` says; anything else is transient, and the worker
/// tries again after a wait that doubles with each such failure in a row. A transient failure
/// never gives the task a final status.
pub open spec fn after_fetched(
    jobs: Seq<JobView>,
    w: WorkerView,
    outcome: Result<(), FetchErrorView>,
) -> Transition {
    if w.phase != Phase::Fetching || w.current is None {
        stop(jobs, w, ExitReason::Unexpected, false, Discard::Nothing)
    } else {
        let range = w.current->0;
        match outcome {
            Ok(_) => match located(jobs, w.job_id, w.task_id) {
                Some((j, t)) => {
                    let ranges = after_mark(
                        jobs[j].tasks[t].segments,
                        range.index,
                        SegmentStatus::Completed,
                        Some(clamp_u64(segment_len(range))),
                    );
                    next_range(
                        put_task(
                            jobs,
                            j,
                            t,
                            TaskView {
                                segments: ranges,
                                progress_bytes: clamp_u64(completed_bytes(ranges)),
                                ..jobs[j].tasks[t]
                            },
                        ),
                        WorkerView { link_refresh_attempts: 0, backoff_step: 0, current: None, ..w },
                        true,
                        Discard::Nothing,
                    )
                },
                None => stop(jobs, w, ExitReason::Gone, false, Discard::Nothing),
            },
            Err(e) => {
                let rewound = with_rewound(jobs, w, range.index);
                let idle = WorkerView { current: None, ..w };
                let part = Discard::Part(range.index);
                match crate::fetch::failure_kind(e.message()) {
                    crate::fetch::FailureKind::Paused => stop(
                        rewound,
                        idle,
                        ExitReason::Paused,
                        true,
                        part,
                    ),
                    crate::fetch::FailureKind::Expired => on_expired(
                        rewound,
                        idle,
                        w.link_refresh_attempts,
                        Phase::RefreshingLink,
                        true,
                        part,
                    ),
                    crate::fetch::FailureKind::Transient => {
                        let failures = if w.backoff_step == u32::MAX {
                            u32::MAX
                        } else {
                            (w.backoff_step + 1) as u32
                        };
                        proceed(
                            rewound,
                            WorkerView { backoff_step: failures, ..idle },
                            Phase::Waiting,
                            WorkerAction::Sleep(backoff_millis_spec(failures)),
                            true,
                            part,
                        )
                    },
                }
            },
        }
    }
}

/// View of the outcome of a transfer.
pub open spec fn transfer_view(outcome: Result<(), FetchError>) -> Result<(), FetchErrorView> {
    match outcome {
        Ok(_) => Ok(()),
        Err(e) => Err(e@),
    }
}

/// Takes the outcome of the fetch of the worker's range.
pub fn fetched(jobs: &mut Vec<DownloadJob>, worker: &mut TaskWorker, outcome: Result<(), FetchError>)
    -> (step: Step)
    ensures
        (Transition { jobs: final(jobs).deep_view(), worker: final(worker)@, step })
            == after_fetched(old(jobs).deep_view(), old(worker)@, transfer_view(outcome)),
{
    if worker.phase != Phase::Fetching {
        return finish(worker, ExitReason::Unexpected, false, Discard::Nothing);
    }
    let range = match worker.current {
        Some(range) => range,
        None => {
            return finish(worker, ExitReason::Unexpected, false, Discard::Nothing);
        },
    };
    let found = locate(jobs, &worker.job_id, &worker.task_id);
    match outcome {
        Ok(_) => match found {
            Some((j, t)) => {
                let ghost task = old(jobs)@[j as int].tasks@[t as int]@;
                complete_segment(&mut jobs[j].tasks[t].segments, &range);
                let total = completed_total(&jobs[j].tasks[t].segments);
                jobs[j].tasks[t].progress_bytes = total;
                proof {
                    let ranges = after_mark(
                        task.segments,
                        range.index,
                        SegmentStatus::Completed,
                        Some(clamp_u64(segment_len(range))),
                    );
                    lemma_put_task(
                        *old(jobs),
                        *jobs,
                        j as int,
                        t as int,
                        TaskView {
                            segments: ranges,
                            progress_bytes: clamp_u64(completed_bytes(ranges)),
                            ..task
                        },
                    );
                }
                worker.link_refresh_attempts = 0;
                worker.backoff_step = 0;
                worker.current = None;
                advance(jobs, worker, true, Discard::Nothing)
            },
            None => finish(worker, ExitReason::Gone, false, Discard::Nothing),
        },
        Err(e) => {
            match found {
                Some((j, t)) => {
                    let ghost task = old(jobs)@[j as int].tasks@[t as int]@;
                    rewind_segment(&mut jobs[j].tasks[t].segments, range.index);
                    proof {
                        lemma_put_task(
                            *old(jobs),
                            *jobs,
                            j as int,
                            t as int,
                            TaskView {
                                segments: after_mark(
                                    task.segments,
                                    range.index,
                                    SegmentStatus::Pending,
                                    None,
                                ),
                                ..task
                            },
                        );
                    }
                },
                None => {},
            }
            worker.current = None;
            let part = Discard::Part(range.index);
            let message = e.message();
            match crate::fetch::classify_failure(message.as_str()) {
                crate::fetch::FailureKind::Paused => finish(worker, ExitReason::Paused, true, part),
                crate::fetch::FailureKind::Expired => {
                    if worker.link_refresh_attempts < MAX_LINK_REFRESH_ATTEMPTS
                        && worker.episode_url.is_some() && worker.gate_id.is_some() {
                        worker.link_refresh_attempts = worker.link_refresh_attempts + 1;
                        worker.phase = Phase::RefreshingLink;
                        Step { action: WorkerAction::Resolve, persist: true, discard: part }
                    } else {
                        finish_with_status(
                            jobs,
                            worker,
                            TaskStatus::Paused(PauseReason::LinkExpired),
                            ExitReason::LinkExpired,
                            part,
                        )
                    }
                },
                crate::fetch::FailureKind::Transient => {
                    worker.backoff_step = worker.backoff_step.saturating_add(1);
                    worker.phase = Phase::Waiting;
                    Step {
                        action: WorkerAction::Sleep(backoff_millis(worker.backoff_step)),
                        persist: true,
                        discard: part,
                    }
                },
            }
        },
    }
}

/// The step after a wait: the worker turns to the next range.
pub open spec fn after_wait(jobs: Seq<JobView>, w: WorkerView) -> Transition {
    if w.phase == Phase::Waiting {
        next_range(jobs, w, false, Discard::Nothing)
    } else {
        stop(jobs, w, ExitReason::Unexpected, false, Discard::Nothing)
    }
}

/// Wakes the worker after a wait.
pub fn woke(jobs: &mut Vec<DownloadJob>, worker: &mut TaskWorker) -> (step: Step)
    ensures
        (Transition { jobs: final(jobs).deep_view(), worker: final(worker)@, step }) == after_wait(
            old(jobs).deep_view(),
            old(worker)@,
        ),
{
    if worker.phase == Phase::Waiting {
        advance(jobs, worker, false, Discard::Nothing)
    } else {
        finish(worker, ExitReason::Unexpected, false, Discard::Nothing)
    }
}

/// The step after the part files were joined. On success the folder of part files is removed and
/// the task is completed. On failure the parts stay, the task stays as it is, and the worker
/// stops: the next run finds the parts in full and joins them again.
pub open spec fn after_combined(jobs: Seq<JobView>, w: WorkerView, outcome: Result<(), Seq<char>>)
    -> Transition {
    if w.phase != Phase::Combining {
        stop(jobs, w, ExitReason::Unexpected, false, Discard::Nothing)
    } else {
        match outcome {
            Ok(_) => stop_with_status(
                jobs,
                w,
                TaskStatusView::Completed,
                ExitReason::Completed,
                Discard::PartsFolder,
            ),
            Err(_) => stop(jobs, w, ExitReason::ReassemblyFailed, false, Discard::Nothing),
        }
    }
}

/// Takes the outcome of joining the part files.
pub fn combined(jobs: &mut Vec<DownloadJob>, worker: &mut TaskWorker, outcome: Result<(), String>)
    -> (step: Step)
    ensures
        (Transition { jobs: final(jobs).deep_view(), worker: final(worker)@, step })
            == after_combined(old(jobs).deep_view(), old(worker)@, done_view(outcome)),
{
    if worker.phase != Phase::Combining {
        return finish(worker, ExitReason::Unexpected, false, Discard::Nothing);
    }
    match outcome {
        Ok(_) => finish_with_status(
            jobs,
            worker,
            TaskStatus::Completed,
            ExitReason::Completed,
            Discard::PartsFolder,
        ),
        Err(_) => finish(worker, ExitReason::ReassemblyFailed, false, Discard::Nothing),
    }
}

/// Whether the task `task_id` of the job `job_id` is there and downloading.
pub open spec fn is_downloading(jobs: Seq<JobView>, job_id: Seq<char>, task_id: Seq<char>) -> bool {
    located(jobs, job_id, task_id) matches Some((j, t)) && jobs[j].tasks[t].status is Downloading
}

/// The job list after a tick of the progress ticker: the progress of a task that is downloading
/// is the total of its completed ranges and the bytes of the range in flight.
pub open spec fn ticked(jobs: Seq<JobView>, job_id: Seq<char>, task_id: Seq<char>, in_flight: u64)
    -> Seq<JobView> {
    match located(jobs, job_id, task_id) {
        Some((j, t)) if jobs[j].tasks[t].status is Downloading => put_task(
            jobs,
            j,
            t,
            TaskView {
                progress_bytes: clamp_u64(completed_bytes(jobs[j].tasks[t].segments) + in_flight as nat),
                ..jobs[j].tasks[t]
            },
        ),
        _ => jobs,
    }
}

/// One tick of the progress ticker of a task. `in_flight` is the number of bytes of the range in
/// flight that are on disk. Returns whether the ticker is to go on: it ends once the task is no
/// longer downloading.
pub fn tick(jobs: &mut Vec<DownloadJob>, job_id: &String, task_id: &String, in_flight: u64) -> (go_on:
    bool)
    ensures
        final(jobs).deep_view() == ticked(old(jobs).deep_view(), job_id@, task_id@, in_flight),
        go_on == is_downloading(old(jobs).deep_view(), job_id@, task_id@),
{
    match locate(jobs, job_id, task_id) {
        Some((j, t)) => {
            if matches!(jobs[j].tasks[t].status, TaskStatus::Downloading) {
                let done = completed_total(&jobs[j].tasks[t].segments);
                jobs[j].tasks[t].progress_bytes = done.saturating_add(in_flight);
                proof {
                    let task = old(jobs)@[j as int].tasks@[t as int]@;
                    lemma_put_task(
                        *old(jobs),
                        *jobs,
                        j as int,
                        t as int,
                        TaskView {
                            progress_bytes: clamp_u64(completed_bytes(task.segments) + in_flight as nat),
                            ..task
                        },
                    );
                }
                true
            } else {
                false
            }
        },
        None => false,
    }
}

/// Names of the part files of the task `task_id` of the job `job_id`, one for each of its
/// ranges, in their order; none where there is no such task.
pub open spec fn task_part_files(jobs: Seq<JobView>, job_id: Seq<char>, task_id: Seq<char>) -> Seq<
    Seq<char>,
> {
    match located(jobs, job_id, task_id) {
        Some((j, t)) => crate::segments::part_files_of(jobs[j].tasks[t].segments),
        None => Seq::empty(),
    }
}

/// Names of the part files of a task: where its ranges are looked for on disk, fetched to, and
/// joined from, in this order.
pub fn part_files(jobs: &Vec<DownloadJob>, job_id: &String, task_id: &String) -> (names: Vec<
    String,
>)
    ensures
        names.deep_view() == task_part_files(jobs.deep_view(), job_id@, task_id@),
{
    match locate(jobs, job_id, task_id) {
        Some((j, t)) => crate::segments::part_file_names(&jobs[j].tasks[t].segments),
        None => {
            let names: Vec<String> = Vec::new();
            assert(names.deep_view() =~= Seq::<Seq<char>>::empty());
            names
        },
    }
}

} // verus!

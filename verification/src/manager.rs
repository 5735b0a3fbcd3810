//! The download manager: the job list and the settings, and every operation that front ends
//! and workers have on them.
//!
//! The manager holds state and decides. It reads no file, opens no connection and starts no
//! worker: an operation that calls for one of these returns what is to be done.

use crate::config::{Settings, SettingsView};
use crate::fetch::{FetchError, FetchErrorView};
use crate::models::{DownloadBuckets, DownloadJob, JobView, TaskStatus};
use crate::queue::{
    all_done, at_rest, find_job, not_named, paused, queued_status, recovered, resumed, targets,
    task_ids, unfinished, with_job, woken,
};
use crate::worker::{
    after_combined, after_fetched, after_folders, after_length, after_part_sizes, after_permit,
    after_resolved, after_start, after_wait, is_downloading, ticked, Step, TaskWorker, Transition,
    WorkerView,
};
use vstd::prelude::*;

verus! {

/// Why an operation of the manager was refused.
#[derive(Debug, Clone, Copy, PartialEq, Eq, Structural)]
pub enum ManagerError {
    /// There is no job with the given id.
    JobNotFound,
}

impl ManagerError {
    /// The text shown for this error.
    pub fn message(&self) -> (text: String)
        ensures
            text@ == "Job not found"@,
    {
        "Job not found".to_string()
    }
}

/// What the last action of a worker brought back.
#[derive(Debug)]
pub enum WorkerEvent {
    /// Nothing yet: the worker is to start.
    Start,
    /// The resolver answered with a link, or failed with a message.
    Resolved(Result<String, String>),
    /// The concurrency gate gave a permit.
    PermitGranted,
    /// The length request came back.
    Length(Result<u64, FetchError>),
    /// The folders were made, or could not be, with the message of the failure.
    FoldersReady(Result<(), String>),
    /// The sizes of the part files on disk, one entry for each range of the task, in their
    /// order; `None` where a range has no part file.
    PartSizes(Vec<Option<u64>>),
    /// The fetch of the current range came back.
    Fetched(Result<(), FetchError>),
    /// A wait is over.
    Woke,
    /// The part files were joined, or could not be, with the message of the failure.
    Combined(Result<(), String>),
}

/// View of a [`WorkerEvent`].
pub enum EventView {
    Start,
    Resolved(Result<Seq<char>, Seq<char>>),
    PermitGranted,
    Length(Result<u64, FetchErrorView>),
    FoldersReady(Result<(), Seq<char>>),
    PartSizes(Seq<Option<u64>>),
    Fetched(Result<(), FetchErrorView>),
    Woke,
    Combined(Result<(), Seq<char>>),
}

impl View for WorkerEvent {
    type V = EventView;

    open spec fn view(&self) -> EventView {
        match self {
            WorkerEvent::Start => EventView::Start,
            WorkerEvent::Resolved(outcome) => EventView::Resolved(
                crate::worker::resolution_view(*outcome),
            ),
            WorkerEvent::PermitGranted => EventView::PermitGranted,
            WorkerEvent::Length(outcome) => EventView::Length(crate::fetch::length_view(*outcome)),
            WorkerEvent::FoldersReady(outcome) => EventView::FoldersReady(
                crate::worker::done_view(*outcome),
            ),
            WorkerEvent::PartSizes(sizes) => EventView::PartSizes(sizes@),
            WorkerEvent::Fetched(outcome) => EventView::Fetched(
                crate::worker::transfer_view(*outcome),
            ),
            WorkerEvent::Woke => EventView::Woke,
            WorkerEvent::Combined(outcome) => EventView::Combined(crate::worker::done_view(*outcome)),
        }
    }
}

/// One step of a worker: the job list and the worker after the event, and what is asked for
/// next. Each kind of event has its own rule.
pub open spec fn after_event(
    jobs: Seq<JobView>,
    w: WorkerView,
    settings: SettingsView,
    event: EventView,
) -> Transition {
    match event {
        EventView::Start => after_start(jobs, w),
        EventView::Resolved(outcome) => after_resolved(jobs, w, outcome),
        EventView::PermitGranted => after_permit(jobs, w, settings),
        EventView::Length(outcome) => after_length(jobs, w, outcome),
        EventView::FoldersReady(outcome) => after_folders(jobs, w, outcome),
        EventView::PartSizes(sizes) => after_part_sizes(jobs, w, sizes),
        EventView::Fetched(outcome) => after_fetched(jobs, w, outcome),
        EventView::Woke => after_wait(jobs, w),
        EventView::Combined(outcome) => after_combined(jobs, w, outcome),
    }
}

/// The download manager.
#[derive(Debug)]
pub struct DownloadManager {
    pub settings: Settings,
    pub jobs: Vec<DownloadJob>,
}

/// View of a [`DownloadManager`].
pub struct ManagerView {
    pub settings: SettingsView,
    pub jobs: Seq<JobView>,
}

impl View for DownloadManager {
    type V = ManagerView;

    open spec fn view(&self) -> ManagerView {
        ManagerView { settings: self.settings@, jobs: self.jobs.deep_view() }
    }
}

impl DownloadManager {
    /// A manager over the settings and the job list that were read back from disk. The job list
    /// is recovered first: no task is downloading and no range of any task is in flight any
    /// more; whatever was in flight when the process last stopped is pending again.
    pub fn new(settings: Settings, stored: Vec<DownloadJob>) -> (manager: DownloadManager)
        ensures
            manager@ == (ManagerView {
                settings: settings@,
                jobs: recovered(stored.deep_view()),
            }),
            at_rest(manager@.jobs),
    {
        let mut jobs = stored;
        crate::queue::recover(&mut jobs);
        DownloadManager { settings, jobs }
    }

    /// A copy of the job list.
    pub fn get_jobs(&self) -> (jobs: Vec<DownloadJob>)
        ensures
            jobs.deep_view() == self@.jobs,
    {
        crate::models::clone_jobs(&self.jobs)
    }

    /// The job list in two parts: the jobs whose every task is completed, and the others.
    pub fn get_job_buckets(&self) -> (buckets: DownloadBuckets)
        ensures
            buckets.active.deep_view() == self@.jobs.filter(unfinished()),
            buckets.completed.deep_view() == self@.jobs.filter(all_done()),
    {
        DownloadBuckets {
            active: crate::queue::active_jobs(&self.jobs),
            completed: crate::queue::completed_jobs(&self.jobs),
        }
    }

    /// A copy of the settings.
    pub fn get_settings(&self) -> (settings: Settings)
        ensures
            settings@ == self@.settings,
    {
        self.settings.clone()
    }

    /// Replaces the settings. Workers that have their permit keep what they took from the old
    /// ones.
    pub fn update_settings(&mut self, new_settings: Settings)
        ensures
            final(self)@ == (ManagerView { settings: new_settings@, ..old(self)@ }),
    {
        self.settings = new_settings;
    }

    /// Adds a job, or merges it into the job that has its id.
    pub fn add_job(&mut self, job: DownloadJob)
        ensures
            final(self)@ == (ManagerView { jobs: with_job(old(self)@.jobs, job@), ..old(self)@ }),
    {
        crate::queue::add_job(&mut self.jobs, job);
    }

    /// The status of the task that the queue holds for an episode, if it holds one.
    pub fn is_episode_in_queue(&self, job_id: &str, episode_number: u32) -> (status: Option<
        TaskStatus,
    >)
        ensures
            status.deep_view() == queued_status(self@.jobs, job_id@, episode_number),
    {
        let id = String::from_str(job_id);
        crate::queue::episode_status(&self.jobs, &id, episode_number)
    }

    /// Drops the jobs whose every task is completed.
    pub fn clear_completed_jobs(&mut self)
        ensures
            final(self)@ == (ManagerView {
                jobs: old(self)@.jobs.filter(unfinished()),
                ..old(self)@
            }),
    {
        crate::queue::clear_completed(&mut self.jobs);
    }

    /// Drops every job with the given id.
    pub fn remove_job(&mut self, job_id: &str)
        ensures
            final(self)@ == (ManagerView {
                jobs: old(self)@.jobs.filter(not_named(job_id@)),
                ..old(self)@
            }),
    {
        let id = String::from_str(job_id);
        crate::queue::remove_job(&mut self.jobs, &id);
    }

    /// The tasks of a job, each of which is to get a worker. A worker stops by itself where its
    /// task is not pending.
    pub fn start_download(&self, job_id: String) -> (ids: Result<Vec<String>, ManagerError>)
        ensures
            match ids {
                Ok(list) => task_ids(self@.jobs, job_id@) == Some(list.deep_view()),
                Err(e) => e == ManagerError::JobNotFound && task_ids(self@.jobs, job_id@) is None,
            },
    {
        match crate::queue::start_list(&self.jobs, &job_id) {
            Some(list) => Ok(list),
            None => Err(ManagerError::JobNotFound),
        }
    }

    /// Wakes the paused and the failed tasks of a job, one of them or all. Returns the ids of the
    /// tasks that woke: their cancel flags are to be lowered, and then the job is to be started
    /// as `start_download` says.
    pub fn resume(&mut self, job_id: String, task_id: Option<String>) -> (lowered: Result<
        Vec<String>,
        ManagerError,
    >)
        ensures
            final(self)@ == (ManagerView {
                jobs: resumed(old(self)@.jobs, job_id@, task_id.deep_view()),
                ..old(self)@
            }),
            match lowered {
                Ok(list) => find_job(old(self)@.jobs, job_id@) is Some && list.deep_view() == woken(
                    old(self)@.jobs,
                    job_id@,
                    task_id.deep_view(),
                ),
                Err(e) => e == ManagerError::JobNotFound && find_job(old(self)@.jobs, job_id@)
                    is None,
            },
    {
        match crate::queue::resume(&mut self.jobs, &job_id, &task_id) {
            Some(list) => Ok(list),
            None => Err(ManagerError::JobNotFound),
        }
    }

    /// Pauses the tasks of a job, one of them or all, whatever their state. Returns the ids of
    /// the tasks that were meant: their cancel flags are to be raised, so that a transfer in
    /// flight stops at its next chunk.
    pub fn pause(&mut self, job_id: String, task_id: Option<String>) -> (flagged: Vec<String>)
        ensures
            final(self)@ == (ManagerView {
                jobs: paused(old(self)@.jobs, job_id@, task_id.deep_view()),
                ..old(self)@
            }),
            flagged.deep_view() == targets(old(self)@.jobs, job_id@, task_id.deep_view()),
    {
        crate::queue::pause(&mut self.jobs, &job_id, &task_id)
    }

    /// One step of a worker: takes what the worker's last action brought back, changes the job
    /// list and the worker by the rule for that event, and returns what the worker asks for next.
    pub fn step(&mut self, worker: &mut TaskWorker, event: WorkerEvent) -> (step: Step)
        ensures
            final(self)@.settings == old(self)@.settings,
            (Transition { jobs: final(self)@.jobs, worker: final(worker)@, step }) == after_event(
                old(self)@.jobs,
                old(worker)@,
                old(self)@.settings,
                event@,
            ),
    {
        match event {
            WorkerEvent::Start => crate::worker::begin(&mut self.jobs, worker),
            WorkerEvent::Resolved(outcome) => crate::worker::resolved(&mut self.jobs, worker, outcome),
            WorkerEvent::PermitGranted => crate::worker::permitted(
                &self.jobs,
                worker,
                &self.settings,
            ),
            WorkerEvent::Length(outcome) => crate::worker::measured(&mut self.jobs, worker, outcome),
            WorkerEvent::FoldersReady(outcome) => crate::worker::prepared(
                &mut self.jobs,
                worker,
                outcome,
            ),
            WorkerEvent::PartSizes(sizes) => crate::worker::reconciled_with(
                &mut self.jobs,
                worker,
                &sizes,
            ),
            WorkerEvent::Fetched(outcome) => crate::worker::fetched(&mut self.jobs, worker, outcome),
            WorkerEvent::Woke => crate::worker::woke(&mut self.jobs, worker),
            WorkerEvent::Combined(outcome) => crate::worker::combined(&mut self.jobs, worker, outcome),
        }
    }

    /// Names of the part files of a task, one for each of its ranges, in the order in which
    /// they are joined; see [`crate::worker::part_files`].
    pub fn part_files(&self, job_id: &str, task_id: &str) -> (names: Vec<String>)
        ensures
            names.deep_view() == crate::worker::task_part_files(self@.jobs, job_id@, task_id@),
    {
        let job = String::from_str(job_id);
        let task = String::from_str(task_id);
        crate::worker::part_files(&self.jobs, &job, &task)
    }

    /// One tick of the progress ticker of a task; see [`crate::worker::tick`].
    pub fn tick(&mut self, job_id: &str, task_id: &str, in_flight: u64) -> (go_on: bool)
        ensures
            final(self)@ == (ManagerView {
                jobs: ticked(old(self)@.jobs, job_id@, task_id@, in_flight),
                ..old(self)@
            }),
            go_on == is_downloading(old(self)@.jobs, job_id@, task_id@),
    {
        let job = String::from_str(job_id);
        let task = String::from_str(task_id);
        crate::worker::tick(&mut self.jobs, &job, &task, in_flight)
    }
}

} // verus!

//! The job list and the rules by which it changes: recovery after a crash, merging a job that is
//! added again, pausing and resuming, and dropping jobs.
//!
//! Each rule is a spec function on views of the list; the executable function beside it applies
//! the rule in place.

use crate::models::{
    DownloadJob, DownloadTask, JobView, PauseReason, Segment, SegmentStatus, TaskStatus,
    TaskStatusView, TaskView,
};
use crate::seqs::{first_index, lemma_first_index_at, lemma_first_index_none};
use crate::text::opt_str_clone;
use vstd::prelude::*;

verus! {

/// The predicate "is the job `id`".
pub open spec fn job_named(id: Seq<char>) -> spec_fn(JobView) -> bool {
    |j: JobView| j.id == id
}

/// The predicate "is the task `id`".
pub open spec fn task_named(id: Seq<char>) -> spec_fn(TaskView) -> bool {
    |t: TaskView| t.id == id
}

/// Position of the first job with the given id.
pub open spec fn find_job(jobs: Seq<JobView>, id: Seq<char>) -> Option<int> {
    first_index(jobs, job_named(id))
}

/// Position of the first task with the given id.
pub open spec fn find_task(tasks: Seq<TaskView>, id: Seq<char>) -> Option<int> {
    first_index(tasks, task_named(id))
}

/// Finds the first job with the given id.
pub fn job_index(jobs: &Vec<DownloadJob>, id: &String) -> (found: Option<usize>)
    ensures
        match found {
            Some(i) => find_job(jobs.deep_view(), id@) == Some(i as int) && i < jobs.len(),
            None => find_job(jobs.deep_view(), id@) is None,
        },
{
    let mut i: usize = 0;
    while i < jobs.len()
        invariant
            i <= jobs.len(),
            forall|j: int| 0 <= j < i ==> !job_named(id@)(#[trigger] jobs.deep_view()[j]),
        decreases jobs.len() - i,
    {
        if jobs[i].id == *id {
            proof {
                lemma_first_index_at(jobs.deep_view(), job_named(id@), i as int);
            }
            return Some(i);
        }
        i = i + 1;
    }
    proof {
        lemma_first_index_none(jobs.deep_view(), job_named(id@));
    }
    None
}

/// Finds the first task with the given id.
pub fn task_index(tasks: &Vec<DownloadTask>, id: &String) -> (found: Option<usize>)
    ensures
        match found {
            Some(i) => find_task(tasks.deep_view(), id@) == Some(i as int) && i < tasks.len(),
            None => find_task(tasks.deep_view(), id@) is None,
        },
{
    let mut i: usize = 0;
    while i < tasks.len()
        invariant
            i <= tasks.len(),
            forall|j: int| 0 <= j < i ==> !task_named(id@)(#[trigger] tasks.deep_view()[j]),
        decreases tasks.len() - i,
    {
        if tasks[i].id == *id {
            proof {
                lemma_first_index_at(tasks.deep_view(), task_named(id@), i as int);
            }
            return Some(i);
        }
        i = i + 1;
    }
    proof {
        lemma_first_index_none(tasks.deep_view(), task_named(id@));
    }
    None
}

/// A range after a restart: one that was being fetched is pending again, and so is one that had
/// failed where `failed_too` is set.
pub open spec fn recovered_segment(s: Segment, failed_too: bool) -> Segment {
    if s.status == SegmentStatus::Downloading || (failed_too && s.status == SegmentStatus::Error) {
        Segment { status: SegmentStatus::Pending, ..s }
    } else {
        s
    }
}

/// The ranges of a task after a restart.
pub open spec fn recovered_segments(segments: Seq<Segment>, failed_too: bool) -> Seq<Segment> {
    Seq::new(segments.len(), |i: int| recovered_segment(segments[i], failed_too))
}

/// A task after a restart. No range of any task is in flight any more: every range that was
/// being fetched is pending again. A task that was downloading is pending again. A task that had
/// failed and can get a fresh link is paused for a network error, and its failed ranges are
/// pending too. Every other task keeps its status.
pub open spec fn recovered_task(t: TaskView) -> TaskView {
    match t.status {
        TaskStatusView::Downloading => TaskView {
            status: TaskStatusView::Pending,
            segments: recovered_segments(t.segments, false),
            ..t
        },
        TaskStatusView::Error(_) if t.refreshable() => TaskView {
            status: TaskStatusView::Paused(PauseReason::NetworkError),
            segments: recovered_segments(t.segments, true),
            ..t
        },
        _ => TaskView { segments: recovered_segments(t.segments, false), ..t },
    }
}

/// A job after a restart.
pub open spec fn recovered_job(j: JobView) -> JobView {
    JobView { tasks: Seq::new(j.tasks.len(), |i: int| recovered_task(j.tasks[i])), ..j }
}

/// The job list after a restart.
pub open spec fn recovered(jobs: Seq<JobView>) -> Seq<JobView> {
    Seq::new(jobs.len(), |i: int| recovered_job(jobs[i]))
}

/// Whether nothing is in flight: no task is downloading, and no range of any task is being
/// fetched.
pub open spec fn at_rest(jobs: Seq<JobView>) -> bool {
    forall|j: int, t: int|
        0 <= j < jobs.len() && 0 <= t < jobs[j].tasks.len() ==> {
            &&& !((#[trigger] jobs[j].tasks[t]).status is Downloading)
            &&& forall|s: int|
                0 <= s < jobs[j].tasks[t].segments.len() ==> (
                #[trigger] jobs[j].tasks[t].segments[s]).status != SegmentStatus::Downloading
        }
}

/// A job list that was recovered is at rest.
pub proof fn lemma_recovered_is_at_rest(jobs: Seq<JobView>)
    ensures
        at_rest(recovered(jobs)),
{
    let after = recovered(jobs);
    assert forall|j: int, t: int| 0 <= j < after.len() && 0 <= t < after[j].tasks.len() implies {
        &&& !((#[trigger] after[j].tasks[t]).status is Downloading)
        &&& forall|s: int|
            0 <= s < after[j].tasks[t].segments.len() ==> (
            #[trigger] after[j].tasks[t].segments[s]).status != SegmentStatus::Downloading
    } by {
        assert(after[j].tasks[t] == recovered_task(jobs[j].tasks[t]));
    }
}

fn recover_segments(segments: &mut Vec<Segment>, failed_too: bool)
    ensures
        final(segments)@ == recovered_segments(old(segments)@, failed_too),
{
    let mut i: usize = 0;
    while i < segments.len()
        invariant
            i <= segments.len(),
            segments.len() == old(segments).len(),
            forall|j: int|
                0 <= j < i ==> segments@[j] == recovered_segment(old(segments)@[j], failed_too),
            forall|j: int| i <= j < segments.len() ==> segments@[j] == old(segments)@[j],
        decreases segments.len() - i,
    {
        let status = segments[i].status;
        if status == SegmentStatus::Downloading || (failed_too && status == SegmentStatus::Error) {
            segments[i].status = SegmentStatus::Pending;
        }
        i = i + 1;
    }
    assert(segments@ =~= recovered_segments(old(segments)@, failed_too));
}

/// Brings one task to a state from which it can be started again.
pub fn recover_task(task: &mut DownloadTask)
    ensures
        final(task)@ == recovered_task(old(task)@),
{
    let downloading = matches!(task.status, TaskStatus::Downloading);
    let failed = matches!(task.status, TaskStatus::Error(_));
    if downloading {
        task.status = TaskStatus::Pending;
        recover_segments(&mut task.segments, false);
    } else if failed && task.episode_url.is_some() && task.gate_id.is_some() {
        task.status = TaskStatus::Paused(PauseReason::NetworkError);
        recover_segments(&mut task.segments, true);
    } else {
        recover_segments(&mut task.segments, false);
    }
}

/// Brings every task of a job list that was read back after a restart to a state from which it
/// can be started again.
pub fn recover(jobs: &mut Vec<DownloadJob>)
    ensures
        final(jobs).deep_view() == recovered(old(jobs).deep_view()),
        at_rest(final(jobs).deep_view()),
{
    let mut i: usize = 0;
    while i < jobs.len()
        invariant
            i <= jobs.len(),
            jobs.len() == old(jobs).len(),
            forall|j: int| 0 <= j < i ==> (#[trigger] jobs@[j])@ == recovered_job(old(jobs)@[j]@),
            forall|j: int| i <= j < jobs.len() ==> (#[trigger] jobs@[j])@ == old(jobs)@[j]@,
        decreases jobs.len() - i,
    {
        let ghost job_before = jobs@[i as int]@;
        let mut k: usize = 0;
        while k < jobs[i].tasks.len()
            invariant
                i < jobs.len(),
                jobs.len() == old(jobs).len(),
                job_before == old(jobs)@[i as int]@,
                k <= jobs@[i as int].tasks.len(),
                jobs@[i as int].tasks.len() == job_before.tasks.len(),
                jobs@[i as int].id@ == job_before.id,
                jobs@[i as int].name@ == job_before.name,
                forall|j: int|
                    0 <= j < i ==> (#[trigger] jobs@[j])@ == recovered_job(old(jobs)@[j]@),
                forall|j: int| i < j < jobs.len() ==> (#[trigger] jobs@[j])@ == old(jobs)@[j]@,
                forall|t: int|
                    0 <= t < k ==> (#[trigger] jobs@[i as int].tasks@[t])@ == recovered_task(
                        job_before.tasks[t],
                    ),
                forall|t: int|
                    k <= t < job_before.tasks.len() ==> (#[trigger] jobs@[i as int].tasks@[t])@
                        == job_before.tasks[t],
            decreases jobs@[i as int].tasks.len() - k,
        {
            recover_task(&mut jobs[i].tasks[k]);
            k = k + 1;
        }
        assert(jobs@[i as int]@ =~= recovered_job(job_before)) by {
            assert(jobs@[i as int]@.tasks =~= recovered_job(job_before).tasks);
        }
        i = i + 1;
    }
    assert(jobs.deep_view() =~= recovered(old(jobs).deep_view()));
    proof {
        lemma_recovered_is_at_rest(old(jobs).deep_view());
    }
}

/// A range that is given another try: one that had failed is pending again.
pub open spec fn retried_segment(s: Segment) -> Segment {
    if s.status == SegmentStatus::Error {
        Segment { status: SegmentStatus::Pending, ..s }
    } else {
        s
    }
}

/// The ranges of a task that is given another try.
pub open spec fn retried_segments(segments: Seq<Segment>) -> Seq<Segment> {
    Seq::new(segments.len(), |i: int| retried_segment(segments[i]))
}

/// Puts every failed range back in line.
pub fn retry_segments(segments: &mut Vec<Segment>)
    ensures
        final(segments)@ == retried_segments(old(segments)@),
{
    let mut i: usize = 0;
    while i < segments.len()
        invariant
            i <= segments.len(),
            segments.len() == old(segments).len(),
            forall|j: int| 0 <= j < i ==> segments@[j] == retried_segment(old(segments)@[j]),
            forall|j: int| i <= j < segments.len() ==> segments@[j] == old(segments)@[j],
        decreases segments.len() - i,
    {
        if segments[i].status == SegmentStatus::Error {
            segments[i].status = SegmentStatus::Pending;
        }
        i = i + 1;
    }
    assert(segments@ =~= retried_segments(old(segments)@));
}

/// The predicate "is the episode `number`"; no task is the episode of a task without a number.
pub open spec fn same_episode(number: Option<u32>) -> spec_fn(TaskView) -> bool {
    |t: TaskView| number is Some && t.episode_number == number
}

/// A task of the queue after the same episode was added again. A task that is completed or
/// downloading is left alone. Any other takes the link and the refresh data of the newcomer and
/// is pending, with its failed ranges back in line.
pub open spec fn refreshed_task(existing: TaskView, incoming: TaskView) -> TaskView {
    match existing.status {
        TaskStatusView::Completed => existing,
        TaskStatusView::Downloading => existing,
        _ => TaskView {
            url: incoming.url,
            episode_url: incoming.episode_url,
            gate_id: incoming.gate_id,
            status: TaskStatusView::Pending,
            segments: retried_segments(existing.segments),
            ..existing
        },
    }
}

/// The tasks of a job after one task was added: it refreshes the first task of the same episode,
/// or goes to the end where there is none.
pub open spec fn merged_task(tasks: Seq<TaskView>, incoming: TaskView) -> Seq<TaskView> {
    match first_index(tasks, same_episode(incoming.episode_number)) {
        Some(i) => tasks.update(i, refreshed_task(tasks[i], incoming)),
        None => tasks.push(incoming),
    }
}

/// The tasks of a job after the tasks of `incoming` were added one after the other.
pub open spec fn merged_tasks(tasks: Seq<TaskView>, incoming: Seq<TaskView>) -> Seq<TaskView>
    decreases incoming.len(),
{
    if incoming.len() == 0 {
        tasks
    } else {
        merged_task(merged_tasks(tasks, incoming.drop_last()), incoming.last())
    }
}

/// The job list after `job` was added: a job with a new id goes to the end, and one whose id is
/// known has its tasks merged into the first job with that id.
pub open spec fn with_job(jobs: Seq<JobView>, job: JobView) -> Seq<JobView> {
    match find_job(jobs, job.id) {
        Some(i) => jobs.update(i, JobView { tasks: merged_tasks(jobs[i].tasks, job.tasks), ..jobs[i] }),
        None => jobs.push(job),
    }
}

fn refresh_task(existing: &mut DownloadTask, incoming: &DownloadTask)
    ensures
        final(existing)@ == refreshed_task(old(existing)@, incoming@),
{
    match existing.status {
        TaskStatus::Completed => {},
        TaskStatus::Downloading => {},
        _ => {
            existing.url = incoming.url.clone();
            existing.episode_url = opt_str_clone(&incoming.episode_url);
            existing.gate_id = opt_str_clone(&incoming.gate_id);
            existing.status = TaskStatus::Pending;
            retry_segments(&mut existing.segments);
        },
    }
}

fn episode_index(tasks: &Vec<DownloadTask>, number: Option<u32>) -> (found: Option<usize>)
    ensures
        match found {
            Some(i) => first_index(tasks.deep_view(), same_episode(number)) == Some(i as int) && i
                < tasks.len(),
            None => first_index(tasks.deep_view(), same_episode(number)) is None,
        },
{
    let mut i: usize = 0;
    while i < tasks.len()
        invariant
            i <= tasks.len(),
            forall|j: int| 0 <= j < i ==> !same_episode(number)(#[trigger] tasks.deep_view()[j]),
        decreases tasks.len() - i,
    {
        if number.is_some() && tasks[i].episode_number == number {
            proof {
                lemma_first_index_at(tasks.deep_view(), same_episode(number), i as int);
            }
            return Some(i);
        }
        i = i + 1;
    }
    proof {
        lemma_first_index_none(tasks.deep_view(), same_episode(number));
    }
    None
}

fn merge_task(tasks: &mut Vec<DownloadTask>, incoming: &DownloadTask)
    ensures
        final(tasks).deep_view() == merged_task(old(tasks).deep_view(), incoming@),
{
    match episode_index(tasks, incoming.episode_number) {
        Some(i) => {
            refresh_task(&mut tasks[i], incoming);
            assert(tasks.deep_view() =~= merged_task(old(tasks).deep_view(), incoming@));
        },
        None => {
            tasks.push(incoming.clone());
            assert(tasks.deep_view() =~= merged_task(old(tasks).deep_view(), incoming@));
        },
    }
}

fn merge_tasks(tasks: &mut Vec<DownloadTask>, incoming: &Vec<DownloadTask>)
    ensures
        final(tasks).deep_view() == merged_tasks(old(tasks).deep_view(), incoming.deep_view()),
{
    let mut i: usize = 0;
    while i < incoming.len()
        invariant
            i <= incoming.len(),
            tasks.deep_view() == merged_tasks(
                old(tasks).deep_view(),
                incoming.deep_view().take(i as int),
            ),
        decreases incoming.len() - i,
    {
        proof {
            let next = incoming.deep_view().take(i + 1);
            assert(next.drop_last() =~= incoming.deep_view().take(i as int));
            assert(next.last() == incoming@[i as int]@);
        }
        merge_task(tasks, &incoming[i]);
        i = i + 1;
    }
    assert(incoming.deep_view().take(incoming.len() as int) =~= incoming.deep_view());
}

/// Adds a job to the list, or merges it into the job that has its id.
pub fn add_job(jobs: &mut Vec<DownloadJob>, job: DownloadJob)
    ensures
        final(jobs).deep_view() == with_job(old(jobs).deep_view(), job@),
{
    match job_index(jobs, &job.id) {
        Some(i) => {
            merge_tasks(&mut jobs[i].tasks, &job.tasks);
            assert(jobs.deep_view() =~= with_job(old(jobs).deep_view(), job@));
        },
        None => {
            jobs.push(job);
            assert(jobs.deep_view() =~= with_job(old(jobs).deep_view(), job@));
        },
    }
}

/// Whether a request that names `task_id`, or no task at all, is meant for the task `t`.
pub open spec fn selected(task_id: Option<Seq<char>>, t: TaskView) -> bool {
    match task_id {
        None => true,
        Some(id) => t.id == id,
    }
}

/// The predicate "is meant by a request for `task_id`".
pub open spec fn selecting(task_id: Option<Seq<char>>) -> spec_fn(TaskView) -> bool {
    |t: TaskView| selected(task_id, t)
}

/// The ids of `tasks`, in order.
pub open spec fn ids_of(tasks: Seq<TaskView>) -> Seq<Seq<char>> {
    Seq::new(tasks.len(), |i: int| tasks[i].id)
}

fn is_selected(task_id: &Option<String>, task: &DownloadTask) -> (yes: bool)
    ensures
        yes == selected(task_id.deep_view(), task@),
{
    match task_id {
        None => true,
        Some(id) => task.id == *id,
    }
}

/// A task after a pause was asked of it.
pub open spec fn paused_task(t: TaskView, task_id: Option<Seq<char>>) -> TaskView {
    if selected(task_id, t) {
        TaskView { status: TaskStatusView::Paused(PauseReason::UserRequest), ..t }
    } else {
        t
    }
}

/// The job list after a pause was asked of the job `job_id`, for one of its tasks or, with no
/// `task_id`, for all of them: every task that is meant is paused at the user's request.
pub open spec fn paused(jobs: Seq<JobView>, job_id: Seq<char>, task_id: Option<Seq<char>>) -> Seq<
    JobView,
> {
    match find_job(jobs, job_id) {
        Some(i) => jobs.update(
            i,
            JobView {
                tasks: Seq::new(jobs[i].tasks.len(), |k: int| paused_task(jobs[i].tasks[k], task_id)),
                ..jobs[i]
            },
        ),
        None => jobs,
    }
}

/// The ids of the tasks that a request for `job_id` and `task_id` means, in order.
pub open spec fn targets(jobs: Seq<JobView>, job_id: Seq<char>, task_id: Option<Seq<char>>) -> Seq<
    Seq<char>,
> {
    match find_job(jobs, job_id) {
        Some(i) => ids_of(jobs[i].tasks.filter(selecting(task_id))),
        None => Seq::empty(),
    }
}

proof fn lemma_ids_of_push(tasks: Seq<TaskView>, t: TaskView)
    ensures
        ids_of(tasks.push(t)) == ids_of(tasks).push(t.id),
{
    assert(ids_of(tasks.push(t)) =~= ids_of(tasks).push(t.id));
}

/// Pauses the tasks of the job `job_id` that the request means, and returns their ids: the tasks
/// whose cancel flags are to be raised.
pub fn pause(jobs: &mut Vec<DownloadJob>, job_id: &String, task_id: &Option<String>) -> (flagged:
    Vec<String>)
    ensures
        final(jobs).deep_view() == paused(old(jobs).deep_view(), job_id@, task_id.deep_view()),
        flagged.deep_view() == targets(old(jobs).deep_view(), job_id@, task_id.deep_view()),
{
    let mut flagged: Vec<String> = Vec::new();
    match job_index(jobs, job_id) {
        Some(i) => {
            let ghost before = jobs@[i as int]@;
            let ghost want = selecting(task_id.deep_view());
            let mut k: usize = 0;
            assert(before.tasks.take(0).filter(want) =~= Seq::<TaskView>::empty()) by {
                reveal(Seq::filter);
            }
            assert(flagged.deep_view() =~= ids_of(before.tasks.take(0).filter(want)));
            while k < jobs[i].tasks.len()
                invariant
                    i < jobs.len(),
                    jobs.len() == old(jobs).len(),
                    before == old(jobs)@[i as int]@,
                    want == selecting(task_id.deep_view()),
                    k <= jobs@[i as int].tasks.len(),
                    jobs@[i as int].tasks.len() == before.tasks.len(),
                    jobs@[i as int].id@ == before.id,
                    jobs@[i as int].name@ == before.name,
                    forall|j: int| 0 <= j < jobs.len() && j != i ==> jobs@[j] == old(jobs)@[j],
                    forall|t: int|
                        0 <= t < k ==> (#[trigger] jobs@[i as int].tasks@[t])@ == paused_task(
                            before.tasks[t],
                            task_id.deep_view(),
                        ),
                    forall|t: int|
                        k <= t < before.tasks.len() ==> (#[trigger] jobs@[i as int].tasks@[t])@
                            == before.tasks[t],
                    flagged.deep_view() == ids_of(before.tasks.take(k as int).filter(want)),
                decreases jobs@[i as int].tasks.len() - k,
            {
                proof {
                    let seen = before.tasks.take(k as int);
                    assert(before.tasks.take(k + 1) =~= seen.push(before.tasks[k as int]));
                    seen.lemma_filter_push(before.tasks[k as int], want);
                    lemma_ids_of_push(seen.filter(want), before.tasks[k as int]);
                }
                if is_selected(task_id, &jobs[i].tasks[k]) {
                    let ghost ids_before = flagged.deep_view();
                    flagged.push(jobs[i].tasks[k].id.clone());
                    assert(flagged.deep_view() =~= ids_before.push(before.tasks[k as int].id));
                    jobs[i].tasks[k].status = TaskStatus::Paused(PauseReason::UserRequest);
                }
                k = k + 1;
            }
            assert(before.tasks.take(k as int) =~= before.tasks);
            assert(jobs@[i as int]@.tasks =~= Seq::new(
                before.tasks.len(),
                |t: int| paused_task(before.tasks[t], task_id.deep_view()),
            ));
            assert(jobs.deep_view() =~= paused(old(jobs).deep_view(), job_id@, task_id.deep_view()));
        },
        None => {
            assert(flagged.deep_view() =~= Seq::<Seq<char>>::empty());
        },
    }
    flagged
}

/// Whether a task waits to be resumed: it is paused or has failed.
pub open spec fn resumable(t: TaskView) -> bool {
    t.status is Paused || t.status is Error
}

/// Whether a task that is resumed must get a fresh link first: it was not the user who stopped
/// it, and it carries what a resolver needs.
pub open spec fn needs_fresh_link(t: TaskView) -> bool {
    &&& t.refreshable()
    &&& match t.status {
        TaskStatusView::Error(_) => true,
        TaskStatusView::Paused(reason) => reason != PauseReason::UserRequest,
        _ => false,
    }
}

/// The predicate "is meant by a request for `task_id` and waits to be resumed".
pub open spec fn resuming(task_id: Option<Seq<char>>) -> spec_fn(TaskView) -> bool {
    |t: TaskView| selected(task_id, t) && resumable(t)
}

/// A task after it was asked to resume. One that is meant and waits is pending, with its failed
/// ranges back in line; its link is marked `pending` where it has to be resolved anew, and kept
/// otherwise. Every other task is as it was.
pub open spec fn resumed_task(t: TaskView, task_id: Option<Seq<char>>) -> TaskView {
    if selected(task_id, t) && resumable(t) {
        TaskView {
            url: if needs_fresh_link(t) {
                "pending"@
            } else {
                t.url
            },
            status: TaskStatusView::Pending,
            segments: retried_segments(t.segments),
            ..t
        }
    } else {
        t
    }
}

/// The job list after the job `job_id` was asked to resume, for one of its tasks or all of them.
pub open spec fn resumed(jobs: Seq<JobView>, job_id: Seq<char>, task_id: Option<Seq<char>>) -> Seq<
    JobView,
> {
    match find_job(jobs, job_id) {
        Some(i) => jobs.update(
            i,
            JobView {
                tasks: Seq::new(
                    jobs[i].tasks.len(),
                    |k: int| resumed_task(jobs[i].tasks[k], task_id),
                ),
                ..jobs[i]
            },
        ),
        None => jobs,
    }
}

/// The ids of the tasks that a request to resume `job_id` and `task_id` wakes, in order.
pub open spec fn woken(jobs: Seq<JobView>, job_id: Seq<char>, task_id: Option<Seq<char>>) -> Seq<
    Seq<char>,
> {
    match find_job(jobs, job_id) {
        Some(i) => ids_of(jobs[i].tasks.filter(resuming(task_id))),
        None => Seq::empty(),
    }
}

fn resume_task(task: &mut DownloadTask, task_id: &Option<String>) -> (woke: bool)
    ensures
        final(task)@ == resumed_task(old(task)@, task_id.deep_view()),
        woke == resuming(task_id.deep_view())(old(task)@),
{
    if !is_selected(task_id, task) {
        return false;
    }
    let fresh_link = match &task.status {
        TaskStatus::Error(_) => true,
        TaskStatus::Paused(reason) => *reason != PauseReason::UserRequest,
        _ => false,
    };
    let waits = matches!(task.status, TaskStatus::Paused(_) | TaskStatus::Error(_));
    if !waits {
        return false;
    }
    if fresh_link && task.episode_url.is_some() && task.gate_id.is_some() {
        task.url = "pending".to_string();
    }
    task.status = TaskStatus::Pending;
    retry_segments(&mut task.segments);
    true
}

/// Wakes the tasks of the job `job_id` that the request means and that are paused or failed, and
/// returns their ids: the tasks whose cancel flags are to be lowered. Returns nothing, and changes
/// nothing, where there is no such job.
pub fn resume(jobs: &mut Vec<DownloadJob>, job_id: &String, task_id: &Option<String>) -> (lowered:
    Option<Vec<String>>)
    ensures
        final(jobs).deep_view() == resumed(old(jobs).deep_view(), job_id@, task_id.deep_view()),
        lowered is Some <==> find_job(old(jobs).deep_view(), job_id@) is Some,
        lowered matches Some(ids) ==> ids.deep_view() == woken(
            old(jobs).deep_view(),
            job_id@,
            task_id.deep_view(),
        ),
{
    match job_index(jobs, job_id) {
        Some(i) => {
            let mut lowered: Vec<String> = Vec::new();
            let ghost before = jobs@[i as int]@;
            let ghost want = resuming(task_id.deep_view());
            let mut k: usize = 0;
            assert(before.tasks.take(0).filter(want) =~= Seq::<TaskView>::empty()) by {
                reveal(Seq::filter);
            }
            assert(lowered.deep_view() =~= ids_of(before.tasks.take(0).filter(want)));
            while k < jobs[i].tasks.len()
                invariant
                    i < jobs.len(),
                    jobs.len() == old(jobs).len(),
                    before == old(jobs)@[i as int]@,
                    want == resuming(task_id.deep_view()),
                    k <= jobs@[i as int].tasks.len(),
                    jobs@[i as int].tasks.len() == before.tasks.len(),
                    jobs@[i as int].id@ == before.id,
                    jobs@[i as int].name@ == before.name,
                    forall|j: int| 0 <= j < jobs.len() && j != i ==> jobs@[j] == old(jobs)@[j],
                    forall|t: int|
                        0 <= t < k ==> (#[trigger] jobs@[i as int].tasks@[t])@ == resumed_task(
                            before.tasks[t],
                            task_id.deep_view(),
                        ),
                    forall|t: int|
                        k <= t < before.tasks.len() ==> (#[trigger] jobs@[i as int].tasks@[t])@
                            == before.tasks[t],
                    lowered.deep_view() == ids_of(before.tasks.take(k as int).filter(want)),
                decreases jobs@[i as int].tasks.len() - k,
            {
                proof {
                    let seen = before.tasks.take(k as int);
                    assert(before.tasks.take(k + 1) =~= seen.push(before.tasks[k as int]));
                    seen.lemma_filter_push(before.tasks[k as int], want);
                    lemma_ids_of_push(seen.filter(want), before.tasks[k as int]);
                }
                if resume_task(&mut jobs[i].tasks[k], task_id) {
                    let ghost ids_before = lowered.deep_view();
                    lowered.push(jobs[i].tasks[k].id.clone());
                    assert(lowered.deep_view() =~= ids_before.push(before.tasks[k as int].id));
                }
                k = k + 1;
            }
            assert(before.tasks.take(k as int) =~= before.tasks);
            assert(jobs@[i as int]@.tasks =~= Seq::new(
                before.tasks.len(),
                |t: int| resumed_task(before.tasks[t], task_id.deep_view()),
            ));
            assert(jobs.deep_view() =~= resumed(
                old(jobs).deep_view(),
                job_id@,
                task_id.deep_view(),
            ));
            Some(lowered)
        },
        None => None,
    }
}

/// The ids of the tasks of the job `job_id`, in order; nothing where there is no such job.
pub open spec fn task_ids(jobs: Seq<JobView>, job_id: Seq<char>) -> Option<Seq<Seq<char>>> {
    match find_job(jobs, job_id) {
        Some(i) => Some(ids_of(jobs[i].tasks)),
        None => None,
    }
}

/// Lists the tasks of the job `job_id`, one worker to be started for each.
pub fn start_list(jobs: &Vec<DownloadJob>, job_id: &String) -> (ids: Option<Vec<String>>)
    ensures
        ids.deep_view() == task_ids(jobs.deep_view(), job_id@),
{
    match job_index(jobs, job_id) {
        Some(i) => {
            let tasks = &jobs[i].tasks;
            let mut ids: Vec<String> = Vec::new();
            let mut k: usize = 0;
            while k < tasks.len()
                invariant
                    k <= tasks.len(),
                    ids.len() == k,
                    forall|t: int| 0 <= t < k ==> (#[trigger] ids@[t])@ == tasks@[t]@.id,
                decreases tasks.len() - k,
            {
                ids.push(tasks[k].id.clone());
                k = k + 1;
            }
            assert(ids.deep_view() =~= ids_of(jobs.deep_view()[i as int].tasks));
            Some(ids)
        },
        None => None,
    }
}

/// Whether every task of the job is completed; a job without tasks counts as finished.
pub open spec fn finished(j: JobView) -> bool {
    forall|k: int| 0 <= k < j.tasks.len() ==> (#[trigger] j.tasks[k]).status is Completed
}

/// The predicate "has work left".
pub open spec fn unfinished() -> spec_fn(JobView) -> bool {
    |j: JobView| !finished(j)
}

/// The predicate "every task is completed".
pub open spec fn all_done() -> spec_fn(JobView) -> bool {
    |j: JobView| finished(j)
}

/// The predicate "is not the job `id`".
pub open spec fn not_named(id: Seq<char>) -> spec_fn(JobView) -> bool {
    |j: JobView| j.id != id
}

/// Whether every task of the job is completed.
pub fn job_finished(job: &DownloadJob) -> (done: bool)
    ensures
        done == finished(job@),
{
    let mut k: usize = 0;
    while k < job.tasks.len()
        invariant
            k <= job.tasks.len(),
            forall|t: int| 0 <= t < k ==> (#[trigger] job@.tasks[t]).status is Completed,
        decreases job.tasks.len() - k,
    {
        if !matches!(job.tasks[k].status, TaskStatus::Completed) {
            assert(!(job@.tasks[k as int].status is Completed));
            return false;
        }
        k = k + 1;
    }
    true
}

/// Copies of the jobs that satisfy `finished` where `done` is set, and of the others where it is
/// not, in their order.
fn copies_by_state(jobs: &Vec<DownloadJob>, done: bool) -> (copies: Vec<DownloadJob>)
    ensures
        copies.deep_view() == jobs.deep_view().filter(
            if done {
                all_done()
            } else {
                unfinished()
            },
        ),
{
    let ghost want = if done {
        all_done()
    } else {
        unfinished()
    };
    let mut copies: Vec<DownloadJob> = Vec::new();
    let mut i: usize = 0;
    assert(jobs.deep_view().take(0).filter(want) =~= Seq::<JobView>::empty()) by {
        reveal(Seq::filter);
    }
    assert(copies.deep_view() =~= Seq::<JobView>::empty());
    while i < jobs.len()
        invariant
            i <= jobs.len(),
            want == if done {
                all_done()
            } else {
                unfinished()
            },
            copies.deep_view() == jobs.deep_view().take(i as int).filter(want),
        decreases jobs.len() - i,
    {
        proof {
            let seen = jobs.deep_view().take(i as int);
            assert(jobs.deep_view().take(i + 1) =~= seen.push(jobs@[i as int]@));
            seen.lemma_filter_push(jobs@[i as int]@, want);
        }
        if job_finished(&jobs[i]) == done {
            let ghost before = copies.deep_view();
            copies.push(jobs[i].clone());
            assert(copies.deep_view() =~= before.push(jobs@[i as int]@));
        }
        i = i + 1;
    }
    assert(jobs.deep_view().take(jobs.len() as int) =~= jobs.deep_view());
    copies
}

/// Copies of the jobs that have work left, in their order.
pub fn active_jobs(jobs: &Vec<DownloadJob>) -> (copies: Vec<DownloadJob>)
    ensures
        copies.deep_view() == jobs.deep_view().filter(unfinished()),
{
    copies_by_state(jobs, false)
}

/// Copies of the jobs whose every task is completed, in their order.
pub fn completed_jobs(jobs: &Vec<DownloadJob>) -> (copies: Vec<DownloadJob>)
    ensures
        copies.deep_view() == jobs.deep_view().filter(all_done()),
{
    copies_by_state(jobs, true)
}

/// Drops the jobs whose every task is completed.
pub fn clear_completed(jobs: &mut Vec<DownloadJob>)
    ensures
        final(jobs).deep_view() == old(jobs).deep_view().filter(unfinished()),
{
    let kept = active_jobs(jobs);
    *jobs = kept;
}

/// Drops every job with the given id.
pub fn remove_job(jobs: &mut Vec<DownloadJob>, id: &String)
    ensures
        final(jobs).deep_view() == old(jobs).deep_view().filter(not_named(id@)),
{
    let ghost want = not_named(id@);
    let mut kept: Vec<DownloadJob> = Vec::new();
    let mut i: usize = 0;
    assert(jobs.deep_view().take(0).filter(want) =~= Seq::<JobView>::empty()) by {
        reveal(Seq::filter);
    }
    assert(kept.deep_view() =~= Seq::<JobView>::empty());
    while i < jobs.len()
        invariant
            i <= jobs.len(),
            jobs == old(jobs),
            want == not_named(id@),
            kept.deep_view() == jobs.deep_view().take(i as int).filter(want),
        decreases jobs.len() - i,
    {
        proof {
            let seen = jobs.deep_view().take(i as int);
            assert(jobs.deep_view().take(i + 1) =~= seen.push(jobs@[i as int]@));
            seen.lemma_filter_push(jobs@[i as int]@, want);
        }
        if jobs[i].id != *id {
            let ghost before = kept.deep_view();
            kept.push(jobs[i].clone());
            assert(kept.deep_view() =~= before.push(jobs@[i as int]@));
        }
        i = i + 1;
    }
    assert(jobs.deep_view().take(jobs.len() as int) =~= jobs.deep_view());
    *jobs = kept;
}

/// The predicate "is the episode `number`".
pub open spec fn episode(number: u32) -> spec_fn(TaskView) -> bool {
    |t: TaskView| t.episode_number == Some(number)
}

/// The status of the first task for the episode `number` in the first job `job_id`, where there
/// is such a job and such a task.
pub open spec fn queued_status(jobs: Seq<JobView>, job_id: Seq<char>, number: u32) -> Option<
    TaskStatusView,
> {
    match find_job(jobs, job_id) {
        Some(i) => match first_index(jobs[i].tasks, episode(number)) {
            Some(k) => Some(jobs[i].tasks[k].status),
            None => None,
        },
        None => None,
    }
}

/// Looks an episode up in the queue and tells the status of its task.
pub fn episode_status(jobs: &Vec<DownloadJob>, job_id: &String, number: u32) -> (status: Option<
    TaskStatus,
>)
    ensures
        status.deep_view() == queued_status(jobs.deep_view(), job_id@, number),
{
    match job_index(jobs, job_id) {
        Some(i) => {
            let tasks = &jobs[i].tasks;
            let mut k: usize = 0;
            while k < tasks.len()
                invariant
                    k <= tasks.len(),
                    i < jobs.len(),
                    find_job(jobs.deep_view(), job_id@) == Some(i as int),
                    tasks.deep_view() == jobs.deep_view()[i as int].tasks,
                    forall|t: int|
                        0 <= t < k ==> !episode(number)(#[trigger] tasks.deep_view()[t]),
                decreases tasks.len() - k,
            {
                if tasks[k].episode_number == Some(number) {
                    proof {
                        lemma_first_index_at(tasks.deep_view(), episode(number), k as int);
                    }
                    return Some(tasks[k].status.clone());
                }
                k = k + 1;
            }
            proof {
                lemma_first_index_none(tasks.deep_view(), episode(number));
            }
            None
        },
        None => None,
    }
}

} // verus!

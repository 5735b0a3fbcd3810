//! What holds of the manager and its workers whatever the job list, the worker and the events
//! are. Every statement here is over the rules of `queue`, `segments`, `worker` and `manager`.

use crate::config::SettingsView;
use crate::fetch::{chunk_step_spec, failure_kind, ChunkStep, FailureKind, FetchErrorView};
use crate::manager::{after_event, EventView};
use crate::models::{JobView, PauseReason, Segment, SegmentStatus, TaskStatusView, TaskView};
use crate::queue::{find_job, job_named, paused, recovered, recovered_task, selected, task_named};
use crate::segments::{
    after_mark, clamp_u64, completed_bytes, lemma_completion_adds, numbered, segment_len,
};
use crate::seqs::{first_index, lemma_first_index, lemma_first_index_agrees};
use crate::text::{contains_seq, occurs_at};
use crate::worker::{
    after_fetched, after_length, after_resolved, after_start, located, put_task, ticked, Discard,
    ExitReason, Phase, Step, Transition, WorkerAction, WorkerView,
};
use vstd::prelude::*;

verus! {

/// Recovery is idempotent: a job list that was recovered is left as it is by a second recovery.
/// So a ledger that is read, recovered, written and read again is a fixed point, as far as
/// writing and reading give back what was written.
pub proof fn lemma_recovery_idempotent(jobs: Seq<JobView>)
    ensures
        recovered(recovered(jobs)) == recovered(jobs),
{
    let once = recovered(jobs);
    let twice = recovered(once);
    assert forall|i: int| 0 <= i < once.len() implies #[trigger] twice[i] == once[i] by {
        assert(twice[i].tasks =~= once[i].tasks) by {
            assert forall|k: int| 0 <= k < once[i].tasks.len() implies twice[i].tasks[k]
                == once[i].tasks[k] by {
                let t = jobs[i].tasks[k];
                assert(once[i].tasks[k] == recovered_task(t));
                assert(recovered_task(recovered_task(t)).segments =~= recovered_task(t).segments);
            }
        }
    }
    assert(twice =~= once);
}

/// After recovery nothing is in flight: no task is downloading and no range of any task is
/// being fetched. A task that was downloading is pending; a task that had failed and can get a
/// fresh link is paused for a network error; every other task has the status it had. No range
/// changes but in its status, and a completed range stays completed.
pub proof fn lemma_recovered_at_rest(jobs: Seq<JobView>, i: int, k: int)
    requires
        0 <= i < jobs.len(),
        0 <= k < jobs[i].tasks.len(),
    ensures
        ({
            let before = jobs[i].tasks[k];
            let after = recovered(jobs)[i].tasks[k];
            &&& !(after.status is Downloading)
            &&& after.segments.len() == before.segments.len()
            &&& forall|s: int|
                0 <= s < after.segments.len() ==> {
                    &&& (#[trigger] after.segments[s]).status != SegmentStatus::Downloading
                    &&& after.segments[s] == (Segment {
                        status: after.segments[s].status,
                        ..before.segments[s]
                    })
                    &&& before.segments[s].status == SegmentStatus::Completed
                        ==> after.segments[s].status == SegmentStatus::Completed
                    &&& before.segments[s].status == SegmentStatus::Downloading
                        ==> after.segments[s].status == SegmentStatus::Pending
                }
            &&& before.status is Downloading ==> after.status is Pending
            &&& before.status is Error && before.refreshable() ==> after.status
                == TaskStatusView::Paused(PauseReason::NetworkError)
            &&& !(before.status is Downloading) && !(before.status is Error && before.refreshable())
                ==> after.status == before.status
        }),
{
}

/// Replacing a task by one of the same id leaves every job and every task where it was found.
pub proof fn lemma_put_task_keeps_places(
    jobs: Seq<JobView>,
    j: int,
    t: int,
    task: TaskView,
    job_id: Seq<char>,
    task_id: Seq<char>,
)
    requires
        0 <= j < jobs.len(),
        0 <= t < jobs[j].tasks.len(),
        task.id == jobs[j].tasks[t].id,
    ensures
        located(put_task(jobs, j, t, task), job_id, task_id) == located(jobs, job_id, task_id),
        put_task(jobs, j, t, task).len() == jobs.len(),
        put_task(jobs, j, t, task)[j].tasks.len() == jobs[j].tasks.len(),
        put_task(jobs, j, t, task)[j].tasks[t] == task,
{
    let after = put_task(jobs, j, t, task);
    lemma_first_index_agrees(jobs, after, job_named(job_id));
    lemma_first_index(jobs, job_named(job_id));
    match find_job(jobs, job_id) {
        Some(found) => {
            lemma_first_index_agrees(jobs[found].tasks, after[found].tasks, task_named(task_id));
        },
        None => {},
    }
}

/// The text `ExpiredLink` tells of an expired link and of nothing else.
pub proof fn lemma_expired_link_message()
    ensures
        contains_seq(FetchErrorView::ExpiredLink.message(), "ExpiredLink"@),
        failure_kind(FetchErrorView::ExpiredLink.message()) == FailureKind::Expired,
        failure_kind(FetchErrorView::PausedByUser.message()) == FailureKind::Paused,
{
    let expired = "ExpiredLink"@;
    let paused_text = "PausedByUser"@;
    reveal_strlit("ExpiredLink");
    reveal_strlit("PausedByUser");
    assert(expired.subrange(0, expired.len() as int) =~= expired);
    assert(occurs_at(expired, expired, 0));
    assert(paused_text.subrange(0, paused_text.len() as int) =~= paused_text);
    assert(occurs_at(paused_text, paused_text, 0));
    assert forall|i: int| !occurs_at(expired, paused_text, i) by {
        assert(expired.len() == 11);
        assert(paused_text.len() == 12);
    }
}

/// The worker for which the budget of fresh links is stated: it waits for the length of the file,
/// has asked for no fresh link yet, holds what the resolver needs, and its task is in the list.
pub open spec fn sizing_from_scratch(jobs: Seq<JobView>, w: WorkerView) -> bool {
    &&& w.phase == Phase::Sizing
    &&& w.size_refresh_attempts == 0
    &&& w.refreshable()
    &&& located(jobs, w.job_id, w.task_id) is Some
}

/// One round of a link that is always expired: the length request fails with `ExpiredLink`, and
/// the resolver answers with the link `url`.
pub open spec fn expired_round(jobs: Seq<JobView>, w: WorkerView, url: Seq<char>) -> Transition {
    let asked = after_length(jobs, w, Err(FetchErrorView::ExpiredLink));
    after_resolved(asked.jobs, asked.worker, Ok(url))
}

proof fn lemma_expired_round(jobs: Seq<JobView>, w: WorkerView, url: Seq<char>)
    requires
        w.phase == Phase::Sizing,
        w.size_refresh_attempts < 3,
        w.refreshable(),
        located(jobs, w.job_id, w.task_id) is Some,
    ensures
        after_length(jobs, w, Err(FetchErrorView::ExpiredLink)).step.action == WorkerAction::Resolve,
        expired_round(jobs, w, url).step.action == WorkerAction::DiscoverLength,
        expired_round(jobs, w, url).worker == (WorkerView {
            url,
            size_refresh_attempts: (w.size_refresh_attempts + 1) as u32,
            ..w
        }),
        located(expired_round(jobs, w, url).jobs, w.job_id, w.task_id) is Some,
{
    lemma_expired_link_message();
    let (j, t) = located(jobs, w.job_id, w.task_id)->0;
    lemma_first_index(jobs, job_named(w.job_id));
    lemma_first_index(jobs[j].tasks, task_named(w.task_id));
    lemma_put_task_keeps_places(
        jobs,
        j,
        t,
        TaskView { url, ..jobs[j].tasks[t] },
        w.job_id,
        w.task_id,
    );
}

/// The budget of fresh links. A worker whose length request meets nothing but `ExpiredLink`,
/// while the resolver answers every time, asks for a fresh link three times and not a fourth:
/// the fourth `ExpiredLink` pauses the task as expired and stops the worker.
pub proof fn lemma_refresh_budget(
    jobs: Seq<JobView>,
    w: WorkerView,
    first: Seq<char>,
    second: Seq<char>,
    third: Seq<char>,
)
    requires
        sizing_from_scratch(jobs, w),
    ensures
        ({
            let expired = Err::<u64, FetchErrorView>(FetchErrorView::ExpiredLink);
            let one = expired_round(jobs, w, first);
            let two = expired_round(one.jobs, one.worker, second);
            let three = expired_round(two.jobs, two.worker, third);
            let last = after_length(three.jobs, three.worker, expired);
            &&& after_length(jobs, w, expired).step.action == WorkerAction::Resolve
            &&& after_length(one.jobs, one.worker, expired).step.action == WorkerAction::Resolve
            &&& after_length(two.jobs, two.worker, expired).step.action == WorkerAction::Resolve
            &&& three.worker.size_refresh_attempts == 3
            &&& last.step.action == WorkerAction::Exit(ExitReason::LinkExpired)
            &&& last.worker.phase == Phase::Finished
            &&& located(last.jobs, w.job_id, w.task_id) matches Some((j, t))
            &&& last.jobs[j].tasks[t].status == TaskStatusView::Paused(PauseReason::LinkExpired)
        }),
{
    let expired = Err::<u64, FetchErrorView>(FetchErrorView::ExpiredLink);
    lemma_expired_round(jobs, w, first);
    let one = expired_round(jobs, w, first);
    lemma_expired_round(one.jobs, one.worker, second);
    let two = expired_round(one.jobs, one.worker, second);
    lemma_expired_round(two.jobs, two.worker, third);
    let three = expired_round(two.jobs, two.worker, third);
    lemma_expired_link_message();
    let (j, t) = located(three.jobs, w.job_id, w.task_id)->0;
    lemma_first_index(three.jobs, job_named(w.job_id));
    lemma_first_index(three.jobs[j].tasks, task_named(w.task_id));
    lemma_put_task_keeps_places(
        three.jobs,
        j,
        t,
        TaskView {
            status: TaskStatusView::Paused(PauseReason::LinkExpired),
            ..three.jobs[j].tasks[t]
        },
        w.job_id,
        w.task_id,
    );
}

/// A worker never asks for a fresh link beyond its budget, whatever went before: with three
/// fresh links asked for, or without what the resolver needs, an expired link pauses the task.
pub proof fn lemma_no_refresh_beyond_budget(jobs: Seq<JobView>, w: WorkerView)
    requires
        w.phase == Phase::Sizing,
        w.size_refresh_attempts >= 3 || !w.refreshable(),
    ensures
        after_length(jobs, w, Err(FetchErrorView::ExpiredLink)).step.action is Exit,
        after_length(jobs, w, Err(FetchErrorView::ExpiredLink)).worker.phase == Phase::Finished,
        located(jobs, w.job_id, w.task_id) is Some ==> after_length(
            jobs,
            w,
            Err(FetchErrorView::ExpiredLink),
        ).step.action == WorkerAction::Exit(ExitReason::LinkExpired),
{
    lemma_expired_link_message();
}

/// The budget holds during a transfer too: with three fresh links asked for since the last
/// range that was fetched in full, or without what the resolver needs, a range request that
/// finds the link expired pauses the task as expired and stops the worker; with fewer, the worker
/// asks for one more.
pub proof fn lemma_refresh_budget_in_transfer(jobs: Seq<JobView>, w: WorkerView)
    requires
        w.phase == Phase::Fetching,
        w.current is Some,
        located(jobs, w.job_id, w.task_id) is Some,
    ensures
        ({
            let after = after_fetched(jobs, w, Err(FetchErrorView::ExpiredLink));
            if w.link_refresh_attempts < 3 && w.refreshable() {
                &&& after.step.action == WorkerAction::Resolve
                &&& after.worker.phase == Phase::RefreshingLink
                &&& after.worker.link_refresh_attempts == w.link_refresh_attempts + 1
            } else {
                &&& after.step.action == WorkerAction::Exit(ExitReason::LinkExpired)
                &&& after.worker.phase == Phase::Finished
                &&& located(after.jobs, w.job_id, w.task_id) matches Some((j, t))
                &&& after.jobs[j].tasks[t].status == TaskStatusView::Paused(
                    PauseReason::LinkExpired,
                )
            }
        }),
{
    lemma_expired_link_message();
    let range = w.current->0;
    let (j, t) = located(jobs, w.job_id, w.task_id)->0;
    lemma_first_index(jobs, job_named(w.job_id));
    lemma_first_index(jobs[j].tasks, task_named(w.task_id));
    let rewound_task = TaskView {
        segments: after_mark(jobs[j].tasks[t].segments, range.index, SegmentStatus::Pending, None),
        ..jobs[j].tasks[t]
    };
    lemma_put_task_keeps_places(jobs, j, t, rewound_task, w.job_id, w.task_id);
    let rewound = put_task(jobs, j, t, rewound_task);
    lemma_put_task_keeps_places(
        rewound,
        j,
        t,
        TaskView { status: TaskStatusView::Paused(PauseReason::LinkExpired), ..rewound_task },
        w.job_id,
        w.task_id,
    );
}

/// Whether no two ranges have the same number.
pub open spec fn numbers_distinct(segments: Seq<Segment>) -> bool {
    forall|i: int, k: int|
        0 <= i < segments.len() && 0 <= k < segments.len() && i != k ==> (
        #[trigger] segments[i]).index != (#[trigger] segments[k]).index
}

/// Whether no range is being fetched.
pub open spec fn none_in_flight(segments: Seq<Segment>) -> bool {
    forall|k: int|
        0 <= k < segments.len() ==> (#[trigger] segments[k]).status != SegmentStatus::Downloading
}

/// Whether `range` is the one range that is being fetched: it is among the ranges, no other
/// range is in flight, and the ranges are numbered apart.
pub open spec fn alone_in_flight(segments: Seq<Segment>, range: Segment) -> bool {
    &&& range.status == SegmentStatus::Downloading
    &&& numbers_distinct(segments)
    &&& exists|i: int| 0 <= i < segments.len() && #[trigger] segments[i] == range
    &&& forall|k: int|
        0 <= k < segments.len() && (#[trigger] segments[k]).status == SegmentStatus::Downloading
            ==> segments[k] == range
}

/// Putting the one range in flight back in line leaves no range in flight, and that range
/// pending.
pub proof fn lemma_rewind_alone(segments: Seq<Segment>, range: Segment)
    requires
        alone_in_flight(segments, range),
    ensures
        ({
            let rewound = after_mark(segments, range.index, SegmentStatus::Pending, None);
            &&& rewound.len() == segments.len()
            &&& none_in_flight(rewound)
            &&& numbers_distinct(rewound)
            &&& first_index(segments, numbered(range.index)) matches Some(i)
            &&& 0 <= i < segments.len()
            &&& segments[i] == range
            &&& rewound[i] == (Segment { status: SegmentStatus::Pending, ..range })
            &&& crate::segments::pending()(rewound[i])
        }),
{
    let at = choose|i: int| 0 <= i < segments.len() && #[trigger] segments[i] == range;
    lemma_first_index(segments, numbered(range.index));
    assert(numbered(range.index)(segments[at]));
    let rewound = after_mark(segments, range.index, SegmentStatus::Pending, None);
    let found = first_index(segments, numbered(range.index))->0;
    if found != at {
        assert(segments[found].index != segments[at].index);
    }
    assert forall|k: int| 0 <= k < rewound.len() implies (#[trigger] rewound[k]).status
        != SegmentStatus::Downloading by {
        if k != at {
            assert(rewound[k] == segments[k]);
            if segments[k].status == SegmentStatus::Downloading {
                assert(segments[k] == range);
                assert(segments[k].index != segments[at].index);
            }
        }
    }
    assert forall|i: int, k: int|
        0 <= i < rewound.len() && 0 <= k < rewound.len() && i != k implies (
    #[trigger] rewound[i]).index != (#[trigger] rewound[k]).index by {
        assert(rewound[i].index == segments[i].index);
        assert(rewound[k].index == segments[k].index);
    }
}

/// With no range in flight, the range that is claimed is then the one range in flight.
pub proof fn lemma_claim_alone(segments: Seq<Segment>)
    requires
        none_in_flight(segments),
        numbers_distinct(segments),
    ensures
        crate::segments::next_claim(segments) matches Some(claimed) ==> alone_in_flight(
            crate::segments::after_claim(segments),
            claimed,
        ),
        (exists|i: int| 0 <= i < segments.len() && crate::segments::pending()(segments[i]))
            ==> crate::segments::next_claim(segments) is Some,
        crate::segments::next_claim(segments) is None ==> crate::segments::after_claim(segments)
            == segments,
{
    let pending = crate::segments::pending();
    lemma_first_index(segments, pending);
    match first_index(segments, pending) {
        Some(at) => {
            let claimed = crate::segments::next_claim(segments)->0;
            let after = crate::segments::after_claim(segments);
            assert(after[at] == claimed);
            assert forall|i: int, k: int|
                0 <= i < after.len() && 0 <= k < after.len() && i != k implies (
            #[trigger] after[i]).index != (#[trigger] after[k]).index by {
                assert(after[i].index == segments[i].index);
                assert(after[k].index == segments[k].index);
            }
            assert forall|k: int|
                0 <= k < after.len() && (#[trigger] after[k]).status
                    == SegmentStatus::Downloading implies after[k] == claimed by {
                if k != at {
                    assert(after[k] == segments[k]);
                }
            }
        },
        None => {},
    }
}

/// The worker for which a transfer is followed: it waits for the fetch of its range, its task is
/// in the list and is neither paused, failed nor completed, and its range is the one range of
/// the task that is in flight.
pub open spec fn transferring(jobs: Seq<JobView>, w: WorkerView) -> bool {
    &&& w.phase == Phase::Fetching
    &&& w.current is Some
    &&& located(jobs, w.job_id, w.task_id) matches Some((j, t))
    &&& !(jobs[j].tasks[t].status is Paused)
    &&& !(jobs[j].tasks[t].status is Error)
    &&& !(jobs[j].tasks[t].status is Completed)
    &&& alone_in_flight(jobs[j].tasks[t].segments, w.current->0)
}

/// One round of a transfer whose link is always expired: the fetch of the worker's range fails
/// with `ExpiredLink`, and the resolver answers with the link `url`.
pub open spec fn expired_transfer_round(jobs: Seq<JobView>, w: WorkerView, url: Seq<char>)
    -> Transition {
    let asked = after_fetched(jobs, w, Err(FetchErrorView::ExpiredLink));
    after_resolved(asked.jobs, asked.worker, Ok(url))
}

/// One round of an expired transfer within the budget: the failed fetch has the part file
/// removed, puts the range back in line so that no range is in flight, and asks for a fresh
/// link; the answer of the resolver is stored, and the worker claims a range and fetches again.
pub proof fn lemma_expired_transfer_round(jobs: Seq<JobView>, w: WorkerView, url: Seq<char>)
    requires
        transferring(jobs, w),
        w.refreshable(),
        w.link_refresh_attempts < 3,
    ensures
        ({
            let asked = after_fetched(jobs, w, Err(FetchErrorView::ExpiredLink));
            let next = expired_transfer_round(jobs, w, url);
            &&& asked.step == (Step {
                action: WorkerAction::Resolve,
                persist: true,
                discard: Discard::Part((w.current->0).index),
            })
            &&& located(asked.jobs, w.job_id, w.task_id) matches Some((j, t))
            &&& none_in_flight(asked.jobs[j].tasks[t].segments)
            &&& next.step.action == WorkerAction::FetchRange
            &&& next.step.discard == Discard::Nothing
            &&& transferring(next.jobs, next.worker)
            &&& next.worker.refreshable()
            &&& next.worker.job_id == w.job_id
            &&& next.worker.task_id == w.task_id
            &&& next.worker.url == url
            &&& next.worker.link_refresh_attempts == w.link_refresh_attempts + 1
            &&& located(next.jobs, w.job_id, w.task_id) matches Some((a, b))
            &&& next.jobs[a].tasks[b].url == url
        }),
{
    lemma_expired_link_message();
    let range = w.current->0;
    let (j, t) = located(jobs, w.job_id, w.task_id)->0;
    let task = jobs[j].tasks[t];
    lemma_places(jobs, w);
    lemma_rewind_alone(task.segments, range);
    let rewound_ranges = after_mark(task.segments, range.index, SegmentStatus::Pending, None);
    let rewound_task = TaskView { segments: rewound_ranges, ..task };
    lemma_put_task_keeps_places(jobs, j, t, rewound_task, w.job_id, w.task_id);
    let asked = after_fetched(jobs, w, Err(FetchErrorView::ExpiredLink));
    assert(asked.jobs == put_task(jobs, j, t, rewound_task));
    let linked_task = TaskView { url, ..rewound_task };
    lemma_put_task_keeps_places(asked.jobs, j, t, linked_task, w.job_id, w.task_id);
    let linked = put_task(asked.jobs, j, t, linked_task);
    lemma_claim_alone(rewound_ranges);
    let at = first_index(task.segments, numbered(range.index))->0;
    assert(crate::segments::pending()(rewound_ranges[at]));
    let claimed_task = TaskView {
        segments: crate::segments::after_claim(rewound_ranges),
        ..linked_task
    };
    lemma_put_task_keeps_places(linked, j, t, claimed_task, w.job_id, w.task_id);
}

/// The budget of fresh links during a transfer. A worker that has its range in flight, has asked
/// for no fresh link since its last success and holds what the resolver needs, and whose every
/// fetch meets `ExpiredLink` while the resolver answers every time, fetches four times and asks
/// for a fresh link three times. The fourth failure pauses the task as expired and stops the
/// worker; the range is pending again, no range of the task is in flight, and the part file is
/// removed.
pub proof fn lemma_refresh_budget_in_transfer_run(
    jobs: Seq<JobView>,
    w: WorkerView,
    first: Seq<char>,
    second: Seq<char>,
    third: Seq<char>,
)
    requires
        transferring(jobs, w),
        w.refreshable(),
        w.link_refresh_attempts == 0,
    ensures
        ({
            let expired = Err::<(), FetchErrorView>(FetchErrorView::ExpiredLink);
            let one = expired_transfer_round(jobs, w, first);
            let two = expired_transfer_round(one.jobs, one.worker, second);
            let three = expired_transfer_round(two.jobs, two.worker, third);
            let last = after_fetched(three.jobs, three.worker, expired);
            &&& after_fetched(jobs, w, expired).step.action == WorkerAction::Resolve
            &&& one.step.action == WorkerAction::FetchRange
            &&& after_fetched(one.jobs, one.worker, expired).step.action == WorkerAction::Resolve
            &&& two.step.action == WorkerAction::FetchRange
            &&& after_fetched(two.jobs, two.worker, expired).step.action == WorkerAction::Resolve
            &&& three.step.action == WorkerAction::FetchRange
            &&& three.worker.link_refresh_attempts == 3
            &&& three.worker.current is Some
            &&& last.step == (Step {
                action: WorkerAction::Exit(ExitReason::LinkExpired),
                persist: true,
                discard: Discard::Part((three.worker.current->0).index),
            })
            &&& last.worker.phase == Phase::Finished
            &&& located(last.jobs, w.job_id, w.task_id) matches Some((j, t))
            &&& last.jobs[j].tasks[t].status == TaskStatusView::Paused(PauseReason::LinkExpired)
            &&& last.jobs[j].tasks[t].url == third
            &&& none_in_flight(last.jobs[j].tasks[t].segments)
            &&& first_index(
                last.jobs[j].tasks[t].segments,
                numbered((three.worker.current->0).index),
            ) matches Some(i)
            &&& last.jobs[j].tasks[t].segments[i] == (Segment {
                status: SegmentStatus::Pending,
                ..three.worker.current->0
            })
        }),
{
    lemma_expired_transfer_round(jobs, w, first);
    let one = expired_transfer_round(jobs, w, first);
    lemma_expired_transfer_round(one.jobs, one.worker, second);
    let two = expired_transfer_round(one.jobs, one.worker, second);
    lemma_expired_transfer_round(two.jobs, two.worker, third);
    let three = expired_transfer_round(two.jobs, two.worker, third);
    lemma_expired_link_message();
    let tw = three.worker;
    let range = tw.current->0;
    let (j, t) = located(three.jobs, tw.job_id, tw.task_id)->0;
    let task = three.jobs[j].tasks[t];
    lemma_places(three.jobs, tw);
    lemma_rewind_alone(task.segments, range);
    let rewound_ranges = after_mark(task.segments, range.index, SegmentStatus::Pending, None);
    let rewound_task = TaskView { segments: rewound_ranges, ..task };
    lemma_put_task_keeps_places(three.jobs, j, t, rewound_task, tw.job_id, tw.task_id);
    let rewound = put_task(three.jobs, j, t, rewound_task);
    lemma_put_task_keeps_places(
        rewound,
        j,
        t,
        TaskView { status: TaskStatusView::Paused(PauseReason::LinkExpired), ..rewound_task },
        tw.job_id,
        tw.task_id,
    );
    lemma_first_index(rewound_ranges, numbered(range.index));
    lemma_first_index(task.segments, numbered(range.index));
    let at = first_index(task.segments, numbered(range.index))->0;
    assert(numbered(range.index)(rewound_ranges[at]));
    match first_index(rewound_ranges, numbered(range.index)) {
        Some(found) => {
            if found != at {
                assert(rewound_ranges[found].index != rewound_ranges[at].index);
            }
        },
        None => {},
    }
}

/// Completing the one range in flight leaves no range in flight.
pub proof fn lemma_complete_alone(segments: Seq<Segment>, range: Segment, downloaded: Option<u64>)
    requires
        alone_in_flight(segments, range),
    ensures
        none_in_flight(after_mark(segments, range.index, SegmentStatus::Completed, downloaded)),
        numbers_distinct(after_mark(segments, range.index, SegmentStatus::Completed, downloaded)),
{
    let at = choose|i: int| 0 <= i < segments.len() && #[trigger] segments[i] == range;
    lemma_first_index(segments, numbered(range.index));
    assert(numbered(range.index)(segments[at]));
    let done = after_mark(segments, range.index, SegmentStatus::Completed, downloaded);
    let found = first_index(segments, numbered(range.index))->0;
    if found != at {
        assert(segments[found].index != segments[at].index);
    }
    assert forall|k: int| 0 <= k < done.len() implies (#[trigger] done[k]).status
        != SegmentStatus::Downloading by {
        if k != at {
            assert(done[k] == segments[k]);
            if segments[k].status == SegmentStatus::Downloading {
                assert(segments[k] == range);
                assert(segments[k].index != segments[at].index);
            }
        }
    }
    assert forall|i: int, k: int|
        0 <= i < done.len() && 0 <= k < done.len() && i != k implies (#[trigger] done[i]).index != (
    #[trigger] done[k]).index by {
        assert(done[i].index == segments[i].index);
        assert(done[k].index == segments[k].index);
    }
}

/// A fresh plan has its ranges numbered apart and none of them in flight, and holding it
/// against the part files on disk keeps it so.
pub proof fn lemma_plan_not_in_flight(total_size: u64, count: usize, sizes: Seq<Option<u64>>)
    requires
        1 <= count <= total_size,
    ensures
        numbers_distinct(crate::segments::plan(total_size, count)),
        none_in_flight(crate::segments::plan(total_size, count)),
        numbers_distinct(
            crate::segments::reconciled(crate::segments::plan(total_size, count), sizes),
        ),
        none_in_flight(crate::segments::reconciled(crate::segments::plan(total_size, count), sizes)),
{
    crate::segments::lemma_plan_covers(total_size, count);
    lemma_reconciled_not_in_flight(crate::segments::plan(total_size, count), sizes);
}

/// Holding ranges against the part files on disk puts none of them in flight and renumbers
/// none.
pub proof fn lemma_reconciled_not_in_flight(segments: Seq<Segment>, sizes: Seq<Option<u64>>)
    requires
        numbers_distinct(segments),
        none_in_flight(segments),
    ensures
        numbers_distinct(crate::segments::reconciled(segments, sizes)),
        none_in_flight(crate::segments::reconciled(segments, sizes)),
{
    let after = crate::segments::reconciled(segments, sizes);
    assert forall|i: int, k: int|
        0 <= i < after.len() && 0 <= k < after.len() && i != k implies (#[trigger] after[i]).index
        != (#[trigger] after[k]).index by {
        assert(after[i].index == segments[i].index);
        assert(after[k].index == segments[k].index);
    }
    assert forall|k: int| 0 <= k < after.len() implies (#[trigger] after[k]).status
        != SegmentStatus::Downloading by {
        assert(segments[k].status != SegmentStatus::Downloading);
    }
}

/// Turning to the next range with no range in flight: where the worker then fetches, its range
/// is the one range in flight; where it does not, no range is in flight.
pub proof fn lemma_next_range_alone(
    jobs: Seq<JobView>,
    w: WorkerView,
    persist: bool,
    discard: Discard,
)
    requires
        located(jobs, w.job_id, w.task_id) matches Some((j, t)) && none_in_flight(
            jobs[j].tasks[t].segments,
        ) && numbers_distinct(jobs[j].tasks[t].segments),
    ensures
        ({
            let after = crate::worker::next_range(jobs, w, persist, discard);
            &&& located(after.jobs, w.job_id, w.task_id) matches Some((j, t))
            &&& numbers_distinct(after.jobs[j].tasks[t].segments)
            &&& if after.step.action == WorkerAction::FetchRange {
                transferring(after.jobs, after.worker)
            } else {
                none_in_flight(after.jobs[j].tasks[t].segments)
            }
        }),
{
    lemma_places(jobs, w);
    let (j, t) = located(jobs, w.job_id, w.task_id)->0;
    let task = jobs[j].tasks[t];
    lemma_claim_alone(task.segments);
    lemma_put_task_keeps_places(
        jobs,
        j,
        t,
        TaskView { segments: crate::segments::after_claim(task.segments), ..task },
        w.job_id,
        w.task_id,
    );
}

/// A transfer begins with one range in flight. Where the ranges of a task are numbered apart
/// and none is in flight, as in a fresh plan and after recovery, the step that takes the sizes
/// of the part files on disk and goes on to fetch leaves the worker's range as the one range in
/// flight.
pub proof fn lemma_transfer_begins_alone(jobs: Seq<JobView>, w: WorkerView, sizes: Seq<Option<u64>>)
    requires
        w.phase == Phase::Reconciling,
        located(jobs, w.job_id, w.task_id) matches Some((j, t)) && none_in_flight(
            jobs[j].tasks[t].segments,
        ) && numbers_distinct(jobs[j].tasks[t].segments),
    ensures
        ({
            let after = crate::worker::after_part_sizes(jobs, w, sizes);
            after.step.action == WorkerAction::FetchRange ==> transferring(after.jobs, after.worker)
        }),
{
    lemma_places(jobs, w);
    let (j, t) = located(jobs, w.job_id, w.task_id)->0;
    let task = jobs[j].tasks[t];
    lemma_reconciled_not_in_flight(task.segments, sizes);
    let held = TaskView {
        segments: crate::segments::reconciled(task.segments, sizes),
        status: TaskStatusView::Downloading,
        filename: w.file_name,
        ..task
    };
    lemma_put_task_keeps_places(jobs, j, t, held, w.job_id, w.task_id);
    lemma_next_range_alone(put_task(jobs, j, t, held), w, true, Discard::Nothing);
}

/// A transfer keeps one range in flight at most. From a worker whose range is the one range in
/// flight, whatever the fetch brings: where the next step fetches again at once, the worker's
/// new range is the one range in flight; in every other case no range of the task is in flight.
pub proof fn lemma_transfer_stays_alone(
    jobs: Seq<JobView>,
    w: WorkerView,
    outcome: Result<(), FetchErrorView>,
)
    requires
        transferring(jobs, w),
    ensures
        ({
            let after = after_fetched(jobs, w, outcome);
            &&& located(after.jobs, w.job_id, w.task_id) matches Some((j, t))
            &&& numbers_distinct(after.jobs[j].tasks[t].segments)
            &&& if after.step.action == WorkerAction::FetchRange {
                transferring(after.jobs, after.worker)
            } else {
                none_in_flight(after.jobs[j].tasks[t].segments)
            }
        }),
{
    lemma_places(jobs, w);
    let range = w.current->0;
    let (j, t) = located(jobs, w.job_id, w.task_id)->0;
    let task = jobs[j].tasks[t];
    match outcome {
        Ok(_) => {
            let ranges = after_mark(
                task.segments,
                range.index,
                SegmentStatus::Completed,
                Some(clamp_u64(segment_len(range))),
            );
            lemma_complete_alone(task.segments, range, Some(clamp_u64(segment_len(range))));
            let done = TaskView {
                segments: ranges,
                progress_bytes: clamp_u64(completed_bytes(ranges)),
                ..task
            };
            lemma_put_task_keeps_places(jobs, j, t, done, w.job_id, w.task_id);
            lemma_next_range_alone(
                put_task(jobs, j, t, done),
                WorkerView { link_refresh_attempts: 0, backoff_step: 0, current: None, ..w },
                true,
                Discard::Nothing,
            );
        },
        Err(e) => {
            lemma_rewind_alone(task.segments, range);
            let rewound_task = TaskView {
                segments: after_mark(task.segments, range.index, SegmentStatus::Pending, None),
                ..task
            };
            lemma_put_task_keeps_places(jobs, j, t, rewound_task, w.job_id, w.task_id);
            let rewound = put_task(jobs, j, t, rewound_task);
            lemma_put_task_keeps_places(
                rewound,
                j,
                t,
                TaskView {
                    status: TaskStatusView::Paused(PauseReason::LinkExpired),
                    ..rewound_task
                },
                w.job_id,
                w.task_id,
            );
        },
    }
}

/// After a wait or a fresh link, a transfer goes on with one range in flight at most.
pub proof fn lemma_transfer_resumes_alone(jobs: Seq<JobView>, w: WorkerView, url: Seq<char>)
    requires
        w.phase == Phase::Waiting || w.phase == Phase::RefreshingLink,
        located(jobs, w.job_id, w.task_id) matches Some((j, t)) && none_in_flight(
            jobs[j].tasks[t].segments,
        ) && numbers_distinct(jobs[j].tasks[t].segments),
    ensures
        ({
            let after = if w.phase == Phase::Waiting {
                crate::worker::after_wait(jobs, w)
            } else {
                after_resolved(jobs, w, Ok(url))
            };
            &&& located(after.jobs, w.job_id, w.task_id) matches Some((j, t))
            &&& if after.step.action == WorkerAction::FetchRange {
                transferring(after.jobs, after.worker)
            } else {
                none_in_flight(after.jobs[j].tasks[t].segments)
            }
        }),
{
    lemma_places(jobs, w);
    let (j, t) = located(jobs, w.job_id, w.task_id)->0;
    let task = jobs[j].tasks[t];
    if w.phase == Phase::Waiting {
        lemma_next_range_alone(jobs, w, false, Discard::Nothing);
    } else {
        let linked = TaskView { url, ..task };
        lemma_put_task_keeps_places(jobs, j, t, linked, w.job_id, w.task_id);
        lemma_next_range_alone(
            put_task(jobs, j, t, linked),
            WorkerView { url, ..w },
            true,
            Discard::Nothing,
        );
    }
}

/// A pause during a transfer puts everything back. Take a worker whose range is the one range
/// of its task that is in flight. After a pause of its task, the step that takes the failure of
/// the cancelled fetch has the part file removed and leaves the range pending, no range of the
/// task in flight, and the task paused at the user's request; the worker has stopped and does
/// not overwrite the status.
pub proof fn lemma_pause_rewinds_the_transfer(jobs: Seq<JobView>, w: WorkerView)
    requires
        w.phase == Phase::Fetching,
        w.current is Some,
        located(jobs, w.job_id, w.task_id) matches Some((j, t)) && alone_in_flight(
            jobs[j].tasks[t].segments,
            w.current->0,
        ),
    ensures
        ({
            let range = w.current->0;
            let (j, t) = located(jobs, w.job_id, w.task_id)->0;
            let halted = paused(jobs, w.job_id, Some(w.task_id));
            let after = after_fetched(halted, w, Err(FetchErrorView::PausedByUser));
            &&& crate::queue::targets(jobs, w.job_id, Some(w.task_id)).contains(w.task_id)
            &&& after.step == (Step {
                action: WorkerAction::Exit(ExitReason::Paused),
                persist: true,
                discard: Discard::Part(range.index),
            })
            &&& after.worker.phase == Phase::Finished
            &&& after.worker.current is None
            &&& located(after.jobs, w.job_id, w.task_id) == Some((j, t))
            &&& after.jobs[j].tasks[t].status == TaskStatusView::Paused(PauseReason::UserRequest)
            &&& none_in_flight(after.jobs[j].tasks[t].segments)
            &&& first_index(jobs[j].tasks[t].segments, numbered(range.index)) matches Some(i)
            &&& after.jobs[j].tasks[t].segments[i] == (Segment {
                status: SegmentStatus::Pending,
                ..range
            })
        }),
{
    lemma_expired_link_message();
    let range = w.current->0;
    let (j, t) = located(jobs, w.job_id, w.task_id)->0;
    let task = jobs[j].tasks[t];
    lemma_places(jobs, w);
    lemma_first_index(jobs, job_named(w.job_id));
    lemma_first_index(jobs[j].tasks, task_named(w.task_id));
    let halted = paused(jobs, w.job_id, Some(w.task_id));
    lemma_first_index_agrees(jobs, halted, job_named(w.job_id));
    lemma_first_index_agrees(jobs[j].tasks, halted[j].tasks, task_named(w.task_id));
    assert(located(halted, w.job_id, w.task_id) == Some((j, t)));
    let halted_task = halted[j].tasks[t];
    assert(halted_task == TaskView {
        status: TaskStatusView::Paused(PauseReason::UserRequest),
        ..task
    });
    lemma_rewind_alone(task.segments, range);
    let rewound_task = TaskView {
        segments: after_mark(task.segments, range.index, SegmentStatus::Pending, None),
        ..halted_task
    };
    lemma_put_task_keeps_places(halted, j, t, rewound_task, w.job_id, w.task_id);
    let meant = crate::queue::selecting(Some(w.task_id));
    assert(meant(task));
    jobs[j].tasks.lemma_filter_contains_rev(meant, task);
    let chosen = jobs[j].tasks.filter(meant);
    let at = choose|i: int| 0 <= i < chosen.len() && chosen[i] == task;
    assert(crate::queue::ids_of(chosen)[at] == w.task_id);
}

/// A pause is observed at the next chunk. Once the cancel flag of a task is up, the transfer in
/// flight stops before it writes another byte; and the step that takes this failure puts the
/// range back in line, has its part file removed, leaves the status of the task alone and stops
/// the worker.
pub proof fn lemma_pause_is_observed(
    jobs: Seq<JobView>,
    w: WorkerView,
    unpublished: u64,
    chunk_len: usize,
)
    requires
        w.phase == Phase::Fetching,
        w.current is Some,
        located(jobs, w.job_id, w.task_id) is Some,
    ensures
        chunk_step_spec(unpublished, chunk_len, true) == ChunkStep::Abort,
        ({
            let range = w.current->0;
            let (j, t) = located(jobs, w.job_id, w.task_id)->0;
            let after = after_fetched(jobs, w, Err(FetchErrorView::PausedByUser));
            &&& after.step == (Step {
                action: WorkerAction::Exit(ExitReason::Paused),
                persist: true,
                discard: Discard::Part(range.index),
            })
            &&& after.worker.phase == Phase::Finished
            &&& after.worker.current is None
            &&& after.jobs == put_task(
                jobs,
                j,
                t,
                TaskView {
                    segments: after_mark(
                        jobs[j].tasks[t].segments,
                        range.index,
                        SegmentStatus::Pending,
                        None,
                    ),
                    ..jobs[j].tasks[t]
                },
            )
            &&& after.jobs[j].tasks[t].status == jobs[j].tasks[t].status
            &&& first_index(jobs[j].tasks[t].segments, numbered(range.index)) matches Some(i)
                ==> after.jobs[j].tasks[t].segments[i].status == SegmentStatus::Pending
        }),
{
    lemma_expired_link_message();
    let range = w.current->0;
    let (j, t) = located(jobs, w.job_id, w.task_id)->0;
    lemma_first_index(jobs, job_named(w.job_id));
    lemma_first_index(jobs[j].tasks, task_named(w.task_id));
    lemma_first_index(jobs[j].tasks[t].segments, numbered(range.index));
}

/// A pause reaches every task it is meant for: after `pause`, each task of the job that the
/// request means is paused at the user's request, and every other task is as it was.
pub proof fn lemma_pause_marks_tasks(
    jobs: Seq<JobView>,
    job_id: Seq<char>,
    task_id: Option<Seq<char>>,
    k: int,
)
    requires
        find_job(jobs, job_id) is Some,
        0 <= k < jobs[find_job(jobs, job_id)->0].tasks.len(),
    ensures
        ({
            let j = find_job(jobs, job_id)->0;
            let before = jobs[j].tasks[k];
            let after = paused(jobs, job_id, task_id)[j].tasks[k];
            if selected(task_id, before) {
                after == (TaskView {
                    status: TaskStatusView::Paused(PauseReason::UserRequest),
                    ..before
                })
            } else {
                after == before
            }
        }),
{
    lemma_first_index(jobs, job_named(job_id));
}

/// Turning to the next range changes no status and no progress, and leaves every job and task
/// in its place.
pub proof fn lemma_next_range_keeps_tasks(
    jobs: Seq<JobView>,
    w: WorkerView,
    persist: bool,
    discard: Discard,
    j: int,
    t: int,
)
    requires
        0 <= j < jobs.len(),
        0 <= t < jobs[j].tasks.len(),
    ensures
        ({
            let after = crate::worker::next_range(jobs, w, persist, discard);
            &&& after.jobs.len() == jobs.len()
            &&& after.jobs[j].tasks.len() == jobs[j].tasks.len()
            &&& after.jobs[j].tasks[t].status == jobs[j].tasks[t].status
            &&& after.jobs[j].tasks[t].progress_bytes == jobs[j].tasks[t].progress_bytes
            &&& after.step.action != WorkerAction::Exit(ExitReason::Completed)
        }),
{
    lemma_first_index(jobs, job_named(w.job_id));
    match find_job(jobs, w.job_id) {
        Some(found) => {
            lemma_first_index(jobs[found].tasks, task_named(w.task_id));
        },
        None => {},
    }
}

/// What a step may do to the task at position `t` of the job at position `j`: it keeps every
/// job and task in its place, and completes a task only by the rule for a successful reassembly.
pub open spec fn completes_by_reassembly_only(
    jobs: Seq<JobView>,
    w: WorkerView,
    after: Transition,
    reassembled: bool,
    j: int,
    t: int,
) -> bool {
    &&& after.jobs.len() == jobs.len()
    &&& after.jobs[j].tasks.len() == jobs[j].tasks.len()
    &&& after.jobs[j].tasks[t].status is Completed && !(jobs[j].tasks[t].status is Completed) ==> {
        &&& reassembled
        &&& w.phase == Phase::Combining
        &&& located(jobs, w.job_id, w.task_id) == Some((j, t))
        &&& after.step == (Step {
            action: WorkerAction::Exit(ExitReason::Completed),
            persist: true,
            discard: Discard::PartsFolder,
        })
        &&& after.worker.phase == Phase::Finished
    }
}

proof fn lemma_places(jobs: Seq<JobView>, w: WorkerView)
    ensures
        located(jobs, w.job_id, w.task_id) matches Some((a, b)) ==> 0 <= a < jobs.len() && 0 <= b
            < jobs[a].tasks.len() && jobs[a].tasks[b].id == w.task_id,
{
    lemma_first_index(jobs, job_named(w.job_id));
    match find_job(jobs, w.job_id) {
        Some(found) => {
            lemma_first_index(jobs[found].tasks, task_named(w.task_id));
        },
        None => {},
    }
}

proof fn lemma_start_completes_nothing(jobs: Seq<JobView>, w: WorkerView, j: int, t: int)
    requires
        0 <= j < jobs.len(),
        0 <= t < jobs[j].tasks.len(),
    ensures
        completes_by_reassembly_only(jobs, w, after_start(jobs, w), false, j, t),
{
    lemma_places(jobs, w);
    lemma_places(
        jobs,
        match located(jobs, w.job_id, w.task_id) {
            Some((a, b)) => crate::worker::admitted(w, jobs[a], jobs[a].tasks[b]),
            None => w,
        },
    );
}

proof fn lemma_resolved_completes_nothing(
    jobs: Seq<JobView>,
    w: WorkerView,
    outcome: Result<Seq<char>, Seq<char>>,
    j: int,
    t: int,
)
    requires
        0 <= j < jobs.len(),
        0 <= t < jobs[j].tasks.len(),
    ensures
        completes_by_reassembly_only(jobs, w, after_resolved(jobs, w, outcome), false, j, t),
{
    lemma_places(jobs, w);
    match outcome {
        Ok(url) => {
            lemma_next_range_keeps_tasks(
                crate::worker::with_url(jobs, w, url),
                WorkerView { url, ..w },
                true,
                Discard::Nothing,
                j,
                t,
            );
        },
        Err(_) => {},
    }
}

proof fn lemma_length_completes_nothing(
    jobs: Seq<JobView>,
    w: WorkerView,
    outcome: Result<u64, FetchErrorView>,
    j: int,
    t: int,
)
    requires
        0 <= j < jobs.len(),
        0 <= t < jobs[j].tasks.len(),
    ensures
        completes_by_reassembly_only(jobs, w, after_length(jobs, w, outcome), false, j, t),
{
    lemma_places(jobs, w);
}

proof fn lemma_part_sizes_complete_nothing(
    jobs: Seq<JobView>,
    w: WorkerView,
    sizes: Seq<Option<u64>>,
    j: int,
    t: int,
)
    requires
        0 <= j < jobs.len(),
        0 <= t < jobs[j].tasks.len(),
    ensures
        completes_by_reassembly_only(
            jobs,
            w,
            crate::worker::after_part_sizes(jobs, w, sizes),
            false,
            j,
            t,
        ),
{
    lemma_places(jobs, w);
    match located(jobs, w.job_id, w.task_id) {
        Some((a, b)) => {
            lemma_next_range_keeps_tasks(
                put_task(
                    jobs,
                    a,
                    b,
                    TaskView {
                        segments: crate::segments::reconciled(jobs[a].tasks[b].segments, sizes),
                        status: TaskStatusView::Downloading,
                        filename: w.file_name,
                        ..jobs[a].tasks[b]
                    },
                ),
                w,
                true,
                Discard::Nothing,
                j,
                t,
            );
        },
        None => {},
    }
}

proof fn lemma_fetched_completes_nothing(
    jobs: Seq<JobView>,
    w: WorkerView,
    outcome: Result<(), FetchErrorView>,
    j: int,
    t: int,
)
    requires
        0 <= j < jobs.len(),
        0 <= t < jobs[j].tasks.len(),
    ensures
        completes_by_reassembly_only(jobs, w, after_fetched(jobs, w, outcome), false, j, t),
{
    lemma_places(jobs, w);
    if w.current is Some {
        let range = w.current->0;
        lemma_places(crate::worker::with_rewound(jobs, w, range.index), w);
        lemma_places(
            crate::worker::with_rewound(jobs, w, range.index),
            WorkerView { current: None, ..w },
        );
        match located(jobs, w.job_id, w.task_id) {
            Some((a, b)) => {
                let ranges = after_mark(
                    jobs[a].tasks[b].segments,
                    range.index,
                    SegmentStatus::Completed,
                    Some(clamp_u64(segment_len(range))),
                );
                lemma_next_range_keeps_tasks(
                    put_task(
                        jobs,
                        a,
                        b,
                        TaskView {
                            segments: ranges,
                            progress_bytes: clamp_u64(completed_bytes(ranges)),
                            ..jobs[a].tasks[b]
                        },
                    ),
                    WorkerView { link_refresh_attempts: 0, backoff_step: 0, current: None, ..w },
                    true,
                    Discard::Nothing,
                    j,
                    t,
                );
            },
            None => {},
        }
    }
}

proof fn lemma_combined_completes(
    jobs: Seq<JobView>,
    w: WorkerView,
    outcome: Result<(), Seq<char>>,
    j: int,
    t: int,
)
    requires
        0 <= j < jobs.len(),
        0 <= t < jobs[j].tasks.len(),
    ensures
        completes_by_reassembly_only(
            jobs,
            w,
            crate::worker::after_combined(jobs, w, outcome),
            outcome is Ok,
            j,
            t,
        ),
{
    lemma_places(jobs, w);
}

/// Only reassembly completes a task. Whatever the event, a step leaves the job list with the
/// same jobs and tasks in the same places; and where it turns a task that was not completed into
/// a completed one, the event was the success of joining the parts, taken by a worker that was
/// waiting for it, and the step has the folder of parts removed and stops the worker. A worker
/// that has stopped takes no further event, so a worker completes its task at most once.
pub proof fn lemma_completed_only_by_reassembly(
    jobs: Seq<JobView>,
    w: WorkerView,
    settings: SettingsView,
    event: EventView,
    j: int,
    t: int,
)
    requires
        0 <= j < jobs.len(),
        0 <= t < jobs[j].tasks.len(),
    ensures
        completes_by_reassembly_only(
            jobs,
            w,
            after_event(jobs, w, settings, event),
            event == EventView::Combined(Ok(())),
            j,
            t,
        ),
{
    match event {
        EventView::Start => lemma_start_completes_nothing(jobs, w, j, t),
        EventView::Resolved(outcome) => lemma_resolved_completes_nothing(jobs, w, outcome, j, t),
        EventView::PermitGranted => {},
        EventView::Length(outcome) => lemma_length_completes_nothing(jobs, w, outcome, j, t),
        EventView::FoldersReady(outcome) => {
            lemma_places(jobs, w);
        },
        EventView::PartSizes(sizes) => lemma_part_sizes_complete_nothing(jobs, w, sizes, j, t),
        EventView::Fetched(outcome) => lemma_fetched_completes_nothing(jobs, w, outcome, j, t),
        EventView::Woke => lemma_next_range_keeps_tasks(jobs, w, false, Discard::Nothing, j, t),
        EventView::Combined(outcome) => {
            lemma_combined_completes(jobs, w, outcome, j, t);
            match outcome {
                Ok(unit) => {
                    assert(unit == ());
                    assert(event == EventView::Combined(Ok(())));
                },
                Err(_) => {},
            }
        },
    }
}

/// A worker that has stopped stays stopped: it refuses every event and changes nothing.
pub proof fn lemma_finished_is_final(
    jobs: Seq<JobView>,
    w: WorkerView,
    settings: SettingsView,
    event: EventView,
)
    requires
        w.phase == Phase::Finished,
    ensures
        after_event(jobs, w, settings, event).jobs == jobs,
        after_event(jobs, w, settings, event).worker.phase == Phase::Finished,
        after_event(jobs, w, settings, event).step == (Step {
            action: WorkerAction::Exit(ExitReason::Unexpected),
            persist: false,
            discard: Discard::Nothing,
        }),
{
}

/// A worker that is started on a task that is not pending, such as a completed one, stops at
/// once and changes nothing.
pub proof fn lemma_start_needs_pending(jobs: Seq<JobView>, w: WorkerView)
    requires
        w.phase == Phase::Idle,
        located(jobs, w.job_id, w.task_id) matches Some((j, t)) && !(jobs[j].tasks[t].status
            is Pending),
    ensures
        after_start(jobs, w).jobs == jobs,
        after_start(jobs, w).step.action == WorkerAction::Exit(ExitReason::NotPending),
{
}

/// Progress does not fall when a range is completed. Take a task whose range in flight is the
/// one the worker holds, and whose progress counts the completed ranges and no more bytes of
/// the range in flight than the range has. Then the step that takes the success of the fetch
/// leaves the task with at least the progress it had.
pub proof fn lemma_progress_grows_on_completion(jobs: Seq<JobView>, w: WorkerView)
    requires
        w.phase == Phase::Fetching,
        w.current is Some,
        located(jobs, w.job_id, w.task_id) is Some,
        ({
            let range = w.current->0;
            let (j, t) = located(jobs, w.job_id, w.task_id)->0;
            let task = jobs[j].tasks[t];
            &&& first_index(task.segments, numbered(range.index)) matches Some(i)
            &&& task.segments[i].status != SegmentStatus::Completed
            &&& segment_len(task.segments[i]) == segment_len(range)
            &&& task.progress_bytes <= completed_bytes(task.segments) + segment_len(range)
        }),
    ensures
        ({
            let (j, t) = located(jobs, w.job_id, w.task_id)->0;
            let after = after_fetched(jobs, w, Ok(()));
            &&& after.jobs.len() == jobs.len()
            &&& after.jobs[j].tasks.len() == jobs[j].tasks.len()
            &&& after.jobs[j].tasks[t].progress_bytes >= jobs[j].tasks[t].progress_bytes
        }),
{
    let range = w.current->0;
    let (j, t) = located(jobs, w.job_id, w.task_id)->0;
    let task = jobs[j].tasks[t];
    lemma_first_index(jobs, job_named(w.job_id));
    lemma_first_index(jobs[j].tasks, task_named(w.task_id));
    let ranges = after_mark(
        task.segments,
        range.index,
        SegmentStatus::Completed,
        Some(clamp_u64(segment_len(range))),
    );
    lemma_completion_adds(
        task.segments,
        range.index,
        Some(clamp_u64(segment_len(range))),
    );
    lemma_put_task_keeps_places(
        jobs,
        j,
        t,
        TaskView { segments: ranges, progress_bytes: clamp_u64(completed_bytes(ranges)), ..task },
        w.job_id,
        w.task_id,
    );
}

/// Progress does not fall from one tick to the next while the range in flight grows: with the
/// same ranges, a tick that counts more bytes in flight shows no less progress.
pub proof fn lemma_tick_is_monotone(
    jobs: Seq<JobView>,
    job_id: Seq<char>,
    task_id: Seq<char>,
    earlier: u64,
    later: u64,
)
    requires
        earlier <= later,
        located(jobs, job_id, task_id) is Some,
    ensures
        ({
            let (j, t) = located(jobs, job_id, task_id)->0;
            ticked(jobs, job_id, task_id, earlier)[j].tasks[t].progress_bytes <= ticked(
                jobs,
                job_id,
                task_id,
                later,
            )[j].tasks[t].progress_bytes
        }),
{
    let (j, t) = located(jobs, job_id, task_id)->0;
    lemma_first_index(jobs, job_named(job_id));
    lemma_first_index(jobs[j].tasks, task_named(task_id));
}

/// Only a completed fetch and a tick change the progress of a task: every other step of a
/// worker leaves the progress of every task as it was. While a task is downloading, then, its
/// progress falls only where a range that was put back in line is counted anew by a later tick.
pub proof fn lemma_other_steps_keep_progress(
    jobs: Seq<JobView>,
    w: WorkerView,
    settings: SettingsView,
    event: EventView,
    j: int,
    t: int,
)
    requires
        0 <= j < jobs.len(),
        0 <= t < jobs[j].tasks.len(),
        !(event matches EventView::Fetched(Ok(_))),
    ensures
        after_event(jobs, w, settings, event).jobs.len() == jobs.len(),
        after_event(jobs, w, settings, event).jobs[j].tasks.len() == jobs[j].tasks.len(),
        after_event(jobs, w, settings, event).jobs[j].tasks[t].progress_bytes
            == jobs[j].tasks[t].progress_bytes,
{
    lemma_places(jobs, w);
    match event {
        EventView::Start => {
            lemma_places(
                jobs,
                match located(jobs, w.job_id, w.task_id) {
                    Some((a, b)) => crate::worker::admitted(w, jobs[a], jobs[a].tasks[b]),
                    None => w,
                },
            );
        },
        EventView::Resolved(outcome) => {
            match outcome {
                Ok(url) => {
                    lemma_next_range_keeps_tasks(
                        crate::worker::with_url(jobs, w, url),
                        WorkerView { url, ..w },
                        true,
                        Discard::Nothing,
                        j,
                        t,
                    );
                },
                Err(_) => {},
            }
        },
        EventView::PartSizes(sizes) => {
            match located(jobs, w.job_id, w.task_id) {
                Some((a, b)) => {
                    lemma_next_range_keeps_tasks(
                        put_task(
                            jobs,
                            a,
                            b,
                            TaskView {
                                segments: crate::segments::reconciled(
                                    jobs[a].tasks[b].segments,
                                    sizes,
                                ),
                                status: TaskStatusView::Downloading,
                                filename: w.file_name,
                                ..jobs[a].tasks[b]
                            },
                        ),
                        w,
                        true,
                        Discard::Nothing,
                        j,
                        t,
                    );
                },
                None => {},
            }
        },
        EventView::Fetched(outcome) => {
            if w.current is Some {
                let range = w.current->0;
                lemma_places(crate::worker::with_rewound(jobs, w, range.index), w);
                lemma_places(
                    crate::worker::with_rewound(jobs, w, range.index),
                    WorkerView { current: None, ..w },
                );
            }
        },
        EventView::Woke => {
            lemma_next_range_keeps_tasks(jobs, w, false, Discard::Nothing, j, t);
        },
        _ => {},
    }
}

/// Parts are joined only when every range is there: a step that asks for the parts to be
/// joined leaves the worker's task with every range completed.
pub proof fn lemma_combine_only_when_complete(
    jobs: Seq<JobView>,
    w: WorkerView,
    settings: SettingsView,
    event: EventView,
)
    ensures
        ({
            let after = after_event(jobs, w, settings, event);
            after.step.action == WorkerAction::Combine ==> {
                &&& after.worker.phase == Phase::Combining
                &&& located(after.jobs, w.job_id, w.task_id) matches Some((j, t))
                &&& crate::segments::all_completed(after.jobs[j].tasks[t].segments)
            }
        }),
{
    lemma_places(jobs, w);
    match event {
        EventView::Start => {
            lemma_places(
                jobs,
                match located(jobs, w.job_id, w.task_id) {
                    Some((a, b)) => crate::worker::admitted(w, jobs[a], jobs[a].tasks[b]),
                    None => w,
                },
            );
        },
        EventView::Resolved(Ok(url)) => {
            lemma_combine_at_next_range(
                crate::worker::with_url(jobs, w, url),
                WorkerView { url, ..w },
                true,
                Discard::Nothing,
            );
        },
        EventView::PartSizes(sizes) => {
            match located(jobs, w.job_id, w.task_id) {
                Some((a, b)) => {
                    lemma_combine_at_next_range(
                        put_task(
                            jobs,
                            a,
                            b,
                            TaskView {
                                segments: crate::segments::reconciled(
                                    jobs[a].tasks[b].segments,
                                    sizes,
                                ),
                                status: TaskStatusView::Downloading,
                                filename: w.file_name,
                                ..jobs[a].tasks[b]
                            },
                        ),
                        w,
                        true,
                        Discard::Nothing,
                    );
                },
                None => {},
            }
        },
        EventView::Fetched(outcome) => {
            if w.current is Some {
                let range = w.current->0;
                lemma_places(crate::worker::with_rewound(jobs, w, range.index), w);
                lemma_places(
                    crate::worker::with_rewound(jobs, w, range.index),
                    WorkerView { current: None, ..w },
                );
                match located(jobs, w.job_id, w.task_id) {
                    Some((a, b)) => {
                        let ranges = after_mark(
                            jobs[a].tasks[b].segments,
                            range.index,
                            SegmentStatus::Completed,
                            Some(clamp_u64(segment_len(range))),
                        );
                        lemma_combine_at_next_range(
                            put_task(
                                jobs,
                                a,
                                b,
                                TaskView {
                                    segments: ranges,
                                    progress_bytes: clamp_u64(completed_bytes(ranges)),
                                    ..jobs[a].tasks[b]
                                },
                            ),
                            WorkerView {
                                link_refresh_attempts: 0,
                                backoff_step: 0,
                                current: None,
                                ..w
                            },
                            true,
                            Discard::Nothing,
                        );
                    },
                    None => {},
                }
            }
        },
        EventView::Woke => {
            lemma_combine_at_next_range(jobs, w, false, Discard::Nothing);
        },
        _ => {},
    }
}

proof fn lemma_combine_at_next_range(
    jobs: Seq<JobView>,
    w: WorkerView,
    persist: bool,
    discard: Discard,
)
    ensures
        ({
            let after = crate::worker::next_range(jobs, w, persist, discard);
            after.step.action == WorkerAction::Combine ==> {
                &&& after.worker.phase == Phase::Combining
                &&& after.jobs == jobs
                &&& located(jobs, w.job_id, w.task_id) matches Some((j, t))
                &&& crate::segments::all_completed(jobs[j].tasks[t].segments)
            }
        }),
{
    lemma_places(jobs, w);
}

/// Whether every task whose link is marked `pending` carries what a resolver needs.
pub open spec fn pending_links_can_be_resolved(jobs: Seq<JobView>) -> bool {
    forall|j: int, t: int|
        0 <= j < jobs.len() && 0 <= t < jobs[j].tasks.len() && (#[trigger] jobs[j].tasks[t]).url
            == "pending"@ ==> jobs[j].tasks[t].refreshable()
}

/// Resuming keeps links resolvable: where every task with a pending link carries what a
/// resolver needs, the same holds after any request to resume.
pub proof fn lemma_resume_keeps_links_resolvable(
    jobs: Seq<JobView>,
    job_id: Seq<char>,
    task_id: Option<Seq<char>>,
)
    requires
        pending_links_can_be_resolved(jobs),
    ensures
        pending_links_can_be_resolved(crate::queue::resumed(jobs, job_id, task_id)),
{
    lemma_first_index(jobs, job_named(job_id));
    let after = crate::queue::resumed(jobs, job_id, task_id);
    assert forall|j: int, t: int|
        0 <= j < after.len() && 0 <= t < after[j].tasks.len() && (#[trigger] after[j].tasks[t]).url
            == "pending"@ implies after[j].tasks[t].refreshable() by {
        if find_job(jobs, job_id) == Some(j) {
            let before = jobs[j].tasks[t];
            assert(after[j].tasks[t] == crate::queue::resumed_task(before, task_id));
        } else {
            assert(after[j].tasks[t] == jobs[j].tasks[t]);
        }
    }
}

/// The phases in which a worker holds a permit of the concurrency limit: from the grant of the
/// permit until the worker stops.
pub open spec fn holds_permit(phase: Phase) -> bool {
    match phase {
        Phase::Idle => false,
        Phase::Resolving => false,
        Phase::Queued => false,
        Phase::Finished => false,
        _ => true,
    }
}

proof fn lemma_permit_at_next_range(
    jobs: Seq<JobView>,
    w: WorkerView,
    persist: bool,
    discard: Discard,
)
    ensures
        ({
            let after = crate::worker::next_range(jobs, w, persist, discard);
            if after.step.action is Exit {
                after.worker.phase == Phase::Finished
            } else {
                holds_permit(after.worker.phase) && after.step.action != WorkerAction::AcquirePermit
            }
        }),
{
    lemma_places(jobs, w);
}

/// The network is used under a permit only. A worker comes to hold a permit by no step but the
/// one that takes the grant while it waits for it; it asks for a permit only while it holds
/// none; whatever it asks for while it holds none is the permit, the first resolution of its
/// link, or nothing but to stop; and a step that stops the worker ends its hold. The cap on
/// concurrent downloads is then as good as the count of whoever grants the permits.
pub proof fn lemma_network_needs_permit(
    jobs: Seq<JobView>,
    w: WorkerView,
    settings: SettingsView,
    event: EventView,
)
    ensures
        ({
            let after = after_event(jobs, w, settings, event);
            &&& holds_permit(after.worker.phase) && !holds_permit(w.phase) ==> event
                == EventView::PermitGranted && w.phase == Phase::Queued
            &&& after.step.action == WorkerAction::AcquirePermit ==> !holds_permit(w.phase)
                && after.worker.phase == Phase::Queued
            &&& !holds_permit(after.worker.phase) ==> after.step.action is Exit || after.step.action
                == WorkerAction::AcquirePermit || after.step.action == WorkerAction::Resolve
            &&& after.step.action is Exit <==> after.worker.phase == Phase::Finished
        }),
{
    lemma_places(jobs, w);
    match event {
        EventView::Start => {
            lemma_places(
                jobs,
                match located(jobs, w.job_id, w.task_id) {
                    Some((a, b)) => crate::worker::admitted(w, jobs[a], jobs[a].tasks[b]),
                    None => w,
                },
            );
        },
        EventView::Resolved(Ok(url)) => {
            lemma_permit_at_next_range(
                crate::worker::with_url(jobs, w, url),
                WorkerView { url, ..w },
                true,
                Discard::Nothing,
            );
        },
        EventView::PartSizes(sizes) => {
            match located(jobs, w.job_id, w.task_id) {
                Some((a, b)) => {
                    lemma_permit_at_next_range(
                        put_task(
                            jobs,
                            a,
                            b,
                            TaskView {
                                segments: crate::segments::reconciled(
                                    jobs[a].tasks[b].segments,
                                    sizes,
                                ),
                                status: TaskStatusView::Downloading,
                                filename: w.file_name,
                                ..jobs[a].tasks[b]
                            },
                        ),
                        w,
                        true,
                        Discard::Nothing,
                    );
                },
                None => {},
            }
        },
        EventView::Fetched(outcome) => {
            if w.current is Some {
                let range = w.current->0;
                lemma_places(crate::worker::with_rewound(jobs, w, range.index), w);
                lemma_places(
                    crate::worker::with_rewound(jobs, w, range.index),
                    WorkerView { current: None, ..w },
                );
                match located(jobs, w.job_id, w.task_id) {
                    Some((a, b)) => {
                        let ranges = after_mark(
                            jobs[a].tasks[b].segments,
                            range.index,
                            SegmentStatus::Completed,
                            Some(clamp_u64(segment_len(range))),
                        );
                        lemma_permit_at_next_range(
                            put_task(
                                jobs,
                                a,
                                b,
                                TaskView {
                                    segments: ranges,
                                    progress_bytes: clamp_u64(completed_bytes(ranges)),
                                    ..jobs[a].tasks[b]
                                },
                            ),
                            WorkerView {
                                link_refresh_attempts: 0,
                                backoff_step: 0,
                                current: None,
                                ..w
                            },
                            true,
                            Discard::Nothing,
                        );
                    },
                    None => {},
                }
            }
        },
        EventView::Woke => {
            lemma_permit_at_next_range(jobs, w, false, Discard::Nothing);
        },
        _ => {},
    }
}

/// Whether no two jobs have the same id.
pub open spec fn job_ids_distinct(jobs: Seq<JobView>) -> bool {
    forall|i: int, k: int|
        0 <= i < jobs.len() && 0 <= k < jobs.len() && i != k ==> (#[trigger] jobs[i]).id != (
        #[trigger] jobs[k]).id
}

/// Whether no two tasks are for the same episode.
pub open spec fn episodes_distinct(tasks: Seq<TaskView>) -> bool {
    forall|i: int, k: int|
        0 <= i < tasks.len() && 0 <= k < tasks.len() && i != k && (
        #[trigger] tasks[i]).episode_number is Some ==> tasks[i].episode_number != (
        #[trigger] tasks[k]).episode_number
}

/// Adding a job keeps job ids apart: a job whose id is known is merged, never listed twice.
pub proof fn lemma_add_job_keeps_ids_distinct(jobs: Seq<JobView>, job: JobView)
    requires
        job_ids_distinct(jobs),
    ensures
        job_ids_distinct(crate::queue::with_job(jobs, job)),
{
    lemma_first_index(jobs, job_named(job.id));
    let after = crate::queue::with_job(jobs, job);
    assert forall|i: int, k: int|
        0 <= i < after.len() && 0 <= k < after.len() && i != k implies (#[trigger] after[i]).id != (
        #[trigger] after[k]).id by {
        match find_job(jobs, job.id) {
            Some(at) => {
                assert(after[i].id == jobs[i].id);
                assert(after[k].id == jobs[k].id);
            },
            None => {
                if i < jobs.len() {
                    assert(!job_named(job.id)(jobs[i]));
                }
                if k < jobs.len() {
                    assert(!job_named(job.id)(jobs[k]));
                }
            },
        }
    }
}

/// Merging one task keeps episodes apart: a task for an episode that the job has refreshes the
/// task of that episode and is not listed beside it.
pub proof fn lemma_merged_task_keeps_episodes_distinct(tasks: Seq<TaskView>, incoming: TaskView)
    requires
        episodes_distinct(tasks),
    ensures
        episodes_distinct(crate::queue::merged_task(tasks, incoming)),
{
    let same = crate::queue::same_episode(incoming.episode_number);
    lemma_first_index(tasks, same);
    let after = crate::queue::merged_task(tasks, incoming);
    assert forall|i: int, k: int|
        0 <= i < after.len() && 0 <= k < after.len() && i != k && (
        #[trigger] after[i]).episode_number is Some implies after[i].episode_number != (
        #[trigger] after[k]).episode_number by {
        match first_index(tasks, same) {
            Some(at) => {
                assert(after[i].episode_number == tasks[i].episode_number);
                assert(after[k].episode_number == tasks[k].episode_number);
            },
            None => {
                if i < tasks.len() {
                    assert(!same(tasks[i]));
                }
                if k < tasks.len() {
                    assert(!same(tasks[k]));
                }
            },
        }
    }
}

/// Merging a job keeps episodes apart, whatever tasks come in and in whatever order.
pub proof fn lemma_merged_tasks_keep_episodes_distinct(
    tasks: Seq<TaskView>,
    incoming: Seq<TaskView>,
)
    requires
        episodes_distinct(tasks),
    ensures
        episodes_distinct(crate::queue::merged_tasks(tasks, incoming)),
    decreases incoming.len(),
{
    if incoming.len() > 0 {
        lemma_merged_tasks_keep_episodes_distinct(tasks, incoming.drop_last());
        lemma_merged_task_keeps_episodes_distinct(
            crate::queue::merged_tasks(tasks, incoming.drop_last()),
            incoming.last(),
        );
    }
}

/// A step of a worker renames nothing: every job and every task keeps its id and its place.
pub proof fn lemma_step_keeps_ids(
    jobs: Seq<JobView>,
    w: WorkerView,
    settings: SettingsView,
    event: EventView,
    j: int,
    t: int,
)
    requires
        0 <= j < jobs.len(),
        0 <= t < jobs[j].tasks.len(),
    ensures
        after_event(jobs, w, settings, event).jobs.len() == jobs.len(),
        after_event(jobs, w, settings, event).jobs[j].id == jobs[j].id,
        after_event(jobs, w, settings, event).jobs[j].name == jobs[j].name,
        after_event(jobs, w, settings, event).jobs[j].tasks.len() == jobs[j].tasks.len(),
        after_event(jobs, w, settings, event).jobs[j].tasks[t].id == jobs[j].tasks[t].id,
        after_event(jobs, w, settings, event).jobs[j].tasks[t].episode_number
            == jobs[j].tasks[t].episode_number,
{
    lemma_places(jobs, w);
    match event {
        EventView::Start => {
            lemma_places(
                jobs,
                match located(jobs, w.job_id, w.task_id) {
                    Some((a, b)) => crate::worker::admitted(w, jobs[a], jobs[a].tasks[b]),
                    None => w,
                },
            );
        },
        EventView::Resolved(Ok(url)) => {
            lemma_ids_at_next_range(
                crate::worker::with_url(jobs, w, url),
                WorkerView { url, ..w },
                true,
                Discard::Nothing,
                j,
                t,
            );
        },
        EventView::PartSizes(sizes) => {
            match located(jobs, w.job_id, w.task_id) {
                Some((a, b)) => {
                    lemma_ids_at_next_range(
                        put_task(
                            jobs,
                            a,
                            b,
                            TaskView {
                                segments: crate::segments::reconciled(
                                    jobs[a].tasks[b].segments,
                                    sizes,
                                ),
                                status: TaskStatusView::Downloading,
                                filename: w.file_name,
                                ..jobs[a].tasks[b]
                            },
                        ),
                        w,
                        true,
                        Discard::Nothing,
                        j,
                        t,
                    );
                },
                None => {},
            }
        },
        EventView::Fetched(outcome) => {
            if w.current is Some {
                let range = w.current->0;
                lemma_places(crate::worker::with_rewound(jobs, w, range.index), w);
                lemma_places(
                    crate::worker::with_rewound(jobs, w, range.index),
                    WorkerView { current: None, ..w },
                );
                match located(jobs, w.job_id, w.task_id) {
                    Some((a, b)) => {
                        let ranges = after_mark(
                            jobs[a].tasks[b].segments,
                            range.index,
                            SegmentStatus::Completed,
                            Some(clamp_u64(segment_len(range))),
                        );
                        lemma_ids_at_next_range(
                            put_task(
                                jobs,
                                a,
                                b,
                                TaskView {
                                    segments: ranges,
                                    progress_bytes: clamp_u64(completed_bytes(ranges)),
                                    ..jobs[a].tasks[b]
                                },
                            ),
                            WorkerView {
                                link_refresh_attempts: 0,
                                backoff_step: 0,
                                current: None,
                                ..w
                            },
                            true,
                            Discard::Nothing,
                            j,
                            t,
                        );
                    },
                    None => {},
                }
            }
        },
        EventView::Woke => {
            lemma_ids_at_next_range(jobs, w, false, Discard::Nothing, j, t);
        },
        _ => {},
    }
}

proof fn lemma_ids_at_next_range(
    jobs: Seq<JobView>,
    w: WorkerView,
    persist: bool,
    discard: Discard,
    j: int,
    t: int,
)
    requires
        0 <= j < jobs.len(),
        0 <= t < jobs[j].tasks.len(),
    ensures
        ({
            let after = crate::worker::next_range(jobs, w, persist, discard);
            &&& after.jobs.len() == jobs.len()
            &&& after.jobs[j].id == jobs[j].id
            &&& after.jobs[j].name == jobs[j].name
            &&& after.jobs[j].tasks.len() == jobs[j].tasks.len()
            &&& after.jobs[j].tasks[t].id == jobs[j].tasks[t].id
            &&& after.jobs[j].tasks[t].episode_number == jobs[j].tasks[t].episode_number
        }),
{
    lemma_places(jobs, w);
}

} // verus!

use aura_core::models::{
    DownloadJob, DownloadTask, PauseReason, Segment, SegmentStatus, TaskStatus,
};
use aura_core::queue::{
    active_jobs, add_job, clear_completed, completed_jobs, episode_status, job_finished,
    job_index, pause, recover, remove_job, resume, start_list, task_index,
};

fn task(id: &str, number: Option<u32>, status: TaskStatus) -> DownloadTask {
    DownloadTask {
        id: id.to_string(),
        url: format!("http://example.com/{}.mp4", id),
        filename: format!("{}.mp4", id),
        status,
        progress_bytes: 0,
        total_bytes: 0,
        episode_url: None,
        gate_id: None,
        episode_number: number,
        segments: vec![],
    }
}

fn refreshable(mut t: DownloadTask) -> DownloadTask {
    t.episode_url = Some("episode.php?1".to_string());
    t.gate_id = Some("gate-1".to_string());
    t
}

fn job(id: &str, tasks: Vec<DownloadTask>) -> DownloadJob {
    DownloadJob { id: id.to_string(), name: format!("Job {}", id), tasks }
}

fn range(index: usize, status: SegmentStatus) -> Segment {
    let start = index as u64 * 100;
    Segment { index, start, end: start + 99, downloaded: 0, status }
}

fn statuses(t: &DownloadTask) -> Vec<SegmentStatus> {
    t.segments.iter().map(|s| s.status).collect()
}

#[test]
fn crash_recovery_puts_work_in_flight_back_in_line() {
    let mut t1 = task("t1", Some(1), TaskStatus::Downloading);
    t1.segments = vec![
        range(0, SegmentStatus::Completed),
        range(1, SegmentStatus::Completed),
        range(2, SegmentStatus::Downloading),
        range(3, SegmentStatus::Pending),
        range(4, SegmentStatus::Error),
    ];
    let mut jobs = vec![job("J", vec![t1])];
    recover(&mut jobs);
    let t1 = &jobs[0].tasks[0];
    assert_eq!(t1.status, TaskStatus::Pending);
    assert_eq!(
        statuses(t1),
        vec![
            SegmentStatus::Completed,
            SegmentStatus::Completed,
            SegmentStatus::Pending,
            SegmentStatus::Pending,
            SegmentStatus::Error,
        ]
    );
}

#[test]
fn crash_recovery_pauses_failed_tasks_that_can_be_refreshed() {
    let mut failed = refreshable(task("t1", Some(1), TaskStatus::Error("boom".to_string())));
    failed.segments = vec![
        range(0, SegmentStatus::Completed),
        range(1, SegmentStatus::Downloading),
        range(2, SegmentStatus::Error),
    ];
    let mut stuck = task("t2", Some(2), TaskStatus::Error("boom".to_string()));
    stuck.segments = vec![range(0, SegmentStatus::Error), range(1, SegmentStatus::Downloading)];
    let mut half = task("t3", Some(3), TaskStatus::Error("boom".to_string()));
    half.episode_url = Some("episode.php?3".to_string());
    let mut paused = task("t4", Some(4), TaskStatus::Paused(PauseReason::UserRequest));
    paused.segments = vec![range(0, SegmentStatus::Downloading)];
    let mut jobs = vec![job("J", vec![failed, stuck, half, paused, task("t5", Some(5), TaskStatus::Completed)])];
    recover(&mut jobs);
    let tasks = &jobs[0].tasks;
    assert_eq!(tasks[0].status, TaskStatus::Paused(PauseReason::NetworkError));
    assert_eq!(
        statuses(&tasks[0]),
        vec![SegmentStatus::Completed, SegmentStatus::Pending, SegmentStatus::Pending]
    );
    assert_eq!(tasks[1].status, TaskStatus::Error("boom".to_string()));
    assert_eq!(statuses(&tasks[1]), vec![SegmentStatus::Error, SegmentStatus::Pending]);
    assert_eq!(tasks[2].status, TaskStatus::Error("boom".to_string()));
    assert_eq!(tasks[3].status, TaskStatus::Paused(PauseReason::UserRequest));
    assert_eq!(statuses(&tasks[3]), vec![SegmentStatus::Pending]);
    assert_eq!(tasks[4].status, TaskStatus::Completed);
}

#[test]
fn crash_recovery_leaves_no_range_in_flight() {
    let in_flight = |id: &str, status: TaskStatus| {
        let mut t = task(id, Some(1), status);
        t.segments = vec![
            range(0, SegmentStatus::Completed),
            range(1, SegmentStatus::Downloading),
            range(2, SegmentStatus::Error),
            range(3, SegmentStatus::Pending),
        ];
        t.segments[0].downloaded = 100;
        t
    };
    let mut jobs = vec![job(
        "J",
        vec![
            in_flight("pending", TaskStatus::Pending),
            in_flight("paused", TaskStatus::Paused(PauseReason::UserRequest)),
            in_flight("expired", TaskStatus::Paused(PauseReason::LinkExpired)),
            in_flight("done", TaskStatus::Completed),
            in_flight("failed", TaskStatus::Error("x".to_string())),
            in_flight("running", TaskStatus::Downloading),
        ],
    )];
    recover(&mut jobs);
    let kept = vec![
        SegmentStatus::Completed,
        SegmentStatus::Pending,
        SegmentStatus::Error,
        SegmentStatus::Pending,
    ];
    let expected = [
        TaskStatus::Pending,
        TaskStatus::Paused(PauseReason::UserRequest),
        TaskStatus::Paused(PauseReason::LinkExpired),
        TaskStatus::Completed,
        TaskStatus::Error("x".to_string()),
        TaskStatus::Pending,
    ];
    for (t, status) in jobs[0].tasks.iter().zip(expected) {
        assert_eq!(t.status, status, "status of {}", t.id);
        assert_eq!(statuses(t), kept, "ranges of {}", t.id);
        assert_eq!(t.segments[0].downloaded, 100);
    }
}

#[test]
fn crash_recovery_is_a_fixed_point() {
    let mut t1 = refreshable(task("t1", Some(1), TaskStatus::Downloading));
    t1.segments = vec![range(0, SegmentStatus::Downloading), range(1, SegmentStatus::Error)];
    let mut t2 = refreshable(task("t2", Some(2), TaskStatus::Error("x".to_string())));
    t2.segments = vec![range(0, SegmentStatus::Downloading), range(1, SegmentStatus::Error)];
    let mut jobs = vec![job("J", vec![t1, t2]), job("K", vec![])];
    recover(&mut jobs);
    let once = format!("{:?}", jobs);
    recover(&mut jobs);
    assert_eq!(format!("{:?}", jobs), once);
    assert_eq!(jobs[0].tasks[0].status, TaskStatus::Pending);
    assert_eq!(statuses(&jobs[0].tasks[0]), vec![SegmentStatus::Pending, SegmentStatus::Error]);
}

#[test]
fn a_new_job_goes_to_the_end() {
    let mut jobs = vec![job("A", vec![])];
    add_job(&mut jobs, job("B", vec![task("t1", Some(1), TaskStatus::Pending)]));
    assert_eq!(jobs.len(), 2);
    assert_eq!(jobs[1].id, "B");
    assert_eq!(jobs[1].tasks.len(), 1);
}

#[test]
fn a_job_that_is_added_again_is_merged() {
    let mut jobs = vec![job("J", vec![task("t1", Some(1), TaskStatus::Completed)])];
    let mut again = task("t1", Some(1), TaskStatus::Pending);
    again.url = "http://example.com/new.mp4".to_string();
    add_job(&mut jobs, job("J", vec![again]));
    assert_eq!(jobs.len(), 1);
    assert_eq!(jobs[0].tasks.len(), 1);
    assert_eq!(jobs[0].tasks[0].status, TaskStatus::Completed);
    assert_eq!(jobs[0].tasks[0].url, "http://example.com/t1.mp4");
    add_job(&mut jobs, job("J", vec![task("t2", Some(2), TaskStatus::Pending)]));
    assert_eq!(jobs.len(), 1);
    assert_eq!(jobs[0].tasks.len(), 2);
    assert_eq!(jobs[0].tasks[1].id, "t2");
}

#[test]
fn merging_refreshes_tasks_that_wait() {
    let mut paused = task("t1", Some(1), TaskStatus::Paused(PauseReason::LinkExpired));
    paused.segments = vec![range(0, SegmentStatus::Completed), range(1, SegmentStatus::Error)];
    paused.progress_bytes = 100;
    let downloading = task("t2", Some(2), TaskStatus::Downloading);
    let failed = task("t3", Some(3), TaskStatus::Error("x".to_string()));
    let unnumbered = task("t4", None, TaskStatus::Pending);
    let mut jobs = vec![job("J", vec![paused, downloading, failed, unnumbered])];

    let mut fresh1 = refreshable(task("other-id", Some(1), TaskStatus::Completed));
    fresh1.url = "http://fresh/1".to_string();
    fresh1.filename = "other.mp4".to_string();
    let mut fresh2 = task("t2", Some(2), TaskStatus::Pending);
    fresh2.url = "http://fresh/2".to_string();
    let mut fresh3 = task("t3", Some(3), TaskStatus::Pending);
    fresh3.url = "http://fresh/3".to_string();
    let fresh4 = task("t4", None, TaskStatus::Pending);
    add_job(&mut jobs, job("J", vec![fresh1, fresh2, fresh3, fresh4]));

    let tasks = &jobs[0].tasks;
    assert_eq!(tasks.len(), 5);
    assert_eq!(tasks[0].id, "t1");
    assert_eq!(tasks[0].url, "http://fresh/1");
    assert_eq!(tasks[0].filename, "t1.mp4");
    assert_eq!(tasks[0].episode_url, Some("episode.php?1".to_string()));
    assert_eq!(tasks[0].gate_id, Some("gate-1".to_string()));
    assert_eq!(tasks[0].status, TaskStatus::Pending);
    assert_eq!(tasks[0].progress_bytes, 100);
    assert_eq!(statuses(&tasks[0]), vec![SegmentStatus::Completed, SegmentStatus::Pending]);
    assert_eq!(tasks[1].status, TaskStatus::Downloading);
    assert_eq!(tasks[1].url, "http://example.com/t2.mp4");
    assert_eq!(tasks[2].status, TaskStatus::Pending);
    assert_eq!(tasks[2].url, "http://fresh/3");
    assert_eq!(tasks[2].episode_url, None);
    assert_eq!(tasks[3].id, "t4");
    assert_eq!(tasks[4].id, "t4");
}

#[test]
fn tasks_added_in_one_go_see_each_other() {
    let mut jobs = vec![job("J", vec![])];
    let mut second = task("b", Some(1), TaskStatus::Pending);
    second.url = "http://second".to_string();
    add_job(&mut jobs, job("J", vec![task("a", Some(1), TaskStatus::Pending), second]));
    assert_eq!(jobs[0].tasks.len(), 1);
    assert_eq!(jobs[0].tasks[0].id, "a");
    assert_eq!(jobs[0].tasks[0].url, "http://second");
}

#[test]
fn pause_marks_every_task_that_is_meant() {
    let mut jobs = vec![
        job("A", vec![task("t1", Some(1), TaskStatus::Pending)]),
        job(
            "J",
            vec![
                task("t1", Some(1), TaskStatus::Downloading),
                task("t2", Some(2), TaskStatus::Completed),
                task("t3", Some(3), TaskStatus::Error("x".to_string())),
            ],
        ),
    ];
    let flagged = pause(&mut jobs, &"J".to_string(), &Some("t2".to_string()));
    assert_eq!(flagged, vec!["t2"]);
    assert_eq!(jobs[1].tasks[0].status, TaskStatus::Downloading);
    assert_eq!(jobs[1].tasks[1].status, TaskStatus::Paused(PauseReason::UserRequest));
    let flagged = pause(&mut jobs, &"J".to_string(), &None);
    assert_eq!(flagged, vec!["t1", "t2", "t3"]);
    for t in &jobs[1].tasks {
        assert_eq!(t.status, TaskStatus::Paused(PauseReason::UserRequest));
    }
    assert_eq!(jobs[0].tasks[0].status, TaskStatus::Pending);
    assert_eq!(pause(&mut jobs, &"missing".to_string(), &None), Vec::<String>::new());
    assert_eq!(pause(&mut jobs, &"J".to_string(), &Some("missing".to_string())), Vec::<String>::new());
}

#[test]
fn resume_wakes_paused_and_failed_tasks() {
    let mut by_user = refreshable(task("t1", Some(1), TaskStatus::Paused(PauseReason::UserRequest)));
    by_user.segments = vec![range(0, SegmentStatus::Error), range(1, SegmentStatus::Completed)];
    let expired = refreshable(task("t2", Some(2), TaskStatus::Paused(PauseReason::LinkExpired)));
    let failed = refreshable(task("t3", Some(3), TaskStatus::Error("x".to_string())));
    let plain = task("t4", Some(4), TaskStatus::Paused(PauseReason::NetworkError));
    let done = task("t5", Some(5), TaskStatus::Completed);
    let running = task("t6", Some(6), TaskStatus::Downloading);
    let unknown = refreshable(task("t7", Some(7), TaskStatus::Paused(PauseReason::Unknown)));
    let mut jobs = vec![job("J", vec![by_user, expired, failed, plain, done, running, unknown])];

    let lowered = resume(&mut jobs, &"J".to_string(), &None);
    assert_eq!(lowered, Some(vec!["t1".to_string(), "t2".to_string(), "t3".to_string(), "t4".to_string(), "t7".to_string()]));
    let tasks = &jobs[0].tasks;
    assert_eq!(tasks[0].status, TaskStatus::Pending);
    assert_eq!(tasks[0].url, "http://example.com/t1.mp4");
    assert_eq!(statuses(&tasks[0]), vec![SegmentStatus::Pending, SegmentStatus::Completed]);
    assert_eq!(tasks[1].status, TaskStatus::Pending);
    assert_eq!(tasks[1].url, "pending");
    assert_eq!(tasks[2].status, TaskStatus::Pending);
    assert_eq!(tasks[2].url, "pending");
    assert_eq!(tasks[3].status, TaskStatus::Pending);
    assert_eq!(tasks[3].url, "http://example.com/t4.mp4");
    assert_eq!(tasks[4].status, TaskStatus::Completed);
    assert_eq!(tasks[5].status, TaskStatus::Downloading);
    assert_eq!(tasks[6].url, "pending");
}

#[test]
fn resume_of_one_task_leaves_the_others() {
    let mut jobs = vec![job(
        "J",
        vec![
            task("t1", Some(1), TaskStatus::Paused(PauseReason::UserRequest)),
            task("t2", Some(2), TaskStatus::Paused(PauseReason::UserRequest)),
        ],
    )];
    let lowered = resume(&mut jobs, &"J".to_string(), &Some("t2".to_string()));
    assert_eq!(lowered, Some(vec!["t2".to_string()]));
    assert_eq!(jobs[0].tasks[0].status, TaskStatus::Paused(PauseReason::UserRequest));
    assert_eq!(jobs[0].tasks[1].status, TaskStatus::Pending);
    assert_eq!(resume(&mut jobs, &"missing".to_string(), &None), None);
    assert_eq!(resume(&mut jobs, &"J".to_string(), &Some("t2".to_string())), Some(vec![]));
}

#[test]
fn jobs_and_tasks_are_found_by_id() {
    let jobs = vec![
        job("A", vec![]),
        job("J", vec![task("t1", Some(1), TaskStatus::Pending), task("t2", Some(2), TaskStatus::Pending)]),
        job("J", vec![task("t9", Some(9), TaskStatus::Pending)]),
    ];
    assert_eq!(job_index(&jobs, &"J".to_string()), Some(1));
    assert_eq!(job_index(&jobs, &"A".to_string()), Some(0));
    assert_eq!(job_index(&jobs, &"Z".to_string()), None);
    assert_eq!(task_index(&jobs[1].tasks, &"t2".to_string()), Some(1));
    assert_eq!(task_index(&jobs[1].tasks, &"t9".to_string()), None);
    assert_eq!(start_list(&jobs, &"J".to_string()), Some(vec!["t1".to_string(), "t2".to_string()]));
    assert_eq!(start_list(&jobs, &"A".to_string()), Some(vec![]));
    assert_eq!(start_list(&jobs, &"Z".to_string()), None);
}

#[test]
fn jobs_fall_in_two_buckets() {
    let jobs = vec![
        job("done", vec![task("t1", Some(1), TaskStatus::Completed), task("t2", Some(2), TaskStatus::Completed)]),
        job("half", vec![task("t1", Some(1), TaskStatus::Completed), task("t2", Some(2), TaskStatus::Pending)]),
        job("empty", vec![]),
        job("open", vec![task("t1", Some(1), TaskStatus::Paused(PauseReason::UserRequest))]),
    ];
    assert!(job_finished(&jobs[0]));
    assert!(!job_finished(&jobs[1]));
    assert!(job_finished(&jobs[2]));
    let active: Vec<String> = active_jobs(&jobs).iter().map(|j| j.id.clone()).collect();
    let completed: Vec<String> = completed_jobs(&jobs).iter().map(|j| j.id.clone()).collect();
    assert_eq!(active, vec!["half", "open"]);
    assert_eq!(completed, vec!["done", "empty"]);
    let mut kept = jobs;
    clear_completed(&mut kept);
    let ids: Vec<String> = kept.iter().map(|j| j.id.clone()).collect();
    assert_eq!(ids, vec!["half", "open"]);
    assert_eq!(kept[0].tasks.len(), 2);
}

#[test]
fn a_job_is_removed_by_id() {
    let mut jobs = vec![job("A", vec![]), job("B", vec![]), job("A", vec![]), job("C", vec![])];
    remove_job(&mut jobs, &"A".to_string());
    let ids: Vec<String> = jobs.iter().map(|j| j.id.clone()).collect();
    assert_eq!(ids, vec!["B", "C"]);
    remove_job(&mut jobs, &"missing".to_string());
    assert_eq!(jobs.len(), 2);
}

#[test]
fn episodes_are_looked_up_in_the_queue() {
    let jobs = vec![job(
        "J",
        vec![
            task("t1", Some(1), TaskStatus::Completed),
            task("t2", Some(2), TaskStatus::Error("x".to_string())),
            task("t2b", Some(2), TaskStatus::Pending),
            task("t0", None, TaskStatus::Pending),
        ],
    )];
    assert_eq!(episode_status(&jobs, &"J".to_string(), 1), Some(TaskStatus::Completed));
    assert_eq!(episode_status(&jobs, &"J".to_string(), 2), Some(TaskStatus::Error("x".to_string())));
    assert_eq!(episode_status(&jobs, &"J".to_string(), 3), None);
    assert_eq!(episode_status(&jobs, &"K".to_string(), 1), None);
}

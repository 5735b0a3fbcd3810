use aura_core::config::Settings;
use aura_core::fetch::FetchError;
use aura_core::manager::{DownloadManager, ManagerError, WorkerEvent};
use aura_core::models::{
    DownloadJob, DownloadTask, PauseReason, Segment, SegmentStatus, TaskStatus,
};
use aura_core::worker::{ExitReason, TaskWorker, WorkerAction};

fn settings() -> Settings {
    let mut settings = Settings::with_download_dir("downloads".to_string());
    settings.segments_per_file = 1;
    settings
}

fn one_task_job(id: &str, name: &str, task_id: &str, url: &str, filename: &str, total: u64) -> DownloadJob {
    DownloadJob {
        id: id.to_string(),
        name: name.to_string(),
        tasks: vec![DownloadTask {
            id: task_id.to_string(),
            episode_number: Some(1),
            url: url.to_string(),
            filename: filename.to_string(),
            total_bytes: total,
            progress_bytes: 0,
            status: TaskStatus::Pending,
            segments: vec![],
            episode_url: None,
            gate_id: None,
        }],
    }
}

/// Runs a worker to its end, answering every action from a script of a server that serves
/// `size` bytes; returns why the worker stopped.
fn run(m: &mut DownloadManager, job_id: &str, task_id: &str, size: Result<u64, u16>) -> ExitReason {
    let mut w = TaskWorker::new(job_id.to_string(), task_id.to_string());
    let mut event = WorkerEvent::Start;
    for _ in 0..100 {
        let step = m.step(&mut w, event);
        event = match step.action {
            WorkerAction::Exit(reason) => return reason,
            WorkerAction::Resolve => WorkerEvent::Resolved(Err("no resolver".to_string())),
            WorkerAction::AcquirePermit => WorkerEvent::PermitGranted,
            WorkerAction::DiscoverLength => WorkerEvent::Length(match size {
                Ok(n) => Ok(n),
                Err(403) => Err(FetchError::ExpiredLink),
                Err(status) => Err(FetchError::Status(status)),
            }),
            WorkerAction::CreateFolders => WorkerEvent::FoldersReady(Ok(())),
            WorkerAction::StatParts => {
                WorkerEvent::PartSizes(vec![None; m.jobs[0].tasks[0].segments.len()])
            }
            WorkerAction::FetchRange => WorkerEvent::Fetched(Ok(())),
            WorkerAction::Sleep(_) => WorkerEvent::Woke,
            WorkerAction::Combine => WorkerEvent::Combined(Ok(())),
        };
    }
    panic!("the worker did not stop");
}

#[test]
fn test_job_persistence() {
    let stored = {
        let mut manager = DownloadManager::new(settings(), vec![]);
        manager.add_job(one_task_job(
            "http://example.com/anime",
            "Test Anime",
            "task1",
            "http://example.com/video.mp4",
            "Ep01.mp4",
            1000,
        ));
        manager.get_jobs()
    };
    let manager = DownloadManager::new(settings(), stored);
    let jobs = manager.get_jobs();
    assert_eq!(jobs.len(), 1);
    assert_eq!(jobs[0].name, "Test Anime");
    assert_eq!(jobs[0].tasks[0].status, TaskStatus::Pending);
}

#[test]
fn test_download_flow() {
    let mut manager = DownloadManager::new(
        Settings::with_download_dir("downloads".to_string()),
        vec![],
    );
    let mut changed = manager.get_settings();
    changed.segments_per_file = 1;
    manager.update_settings(changed);
    assert_eq!(manager.get_settings().segments_per_file, 1);
    manager.add_job(one_task_job(
        "http://server/anime",
        "Test Download",
        "task1",
        "http://server/video.mp4",
        "Ep01.mp4",
        0,
    ));
    let ids = manager.start_download("http://server/anime".to_string()).unwrap();
    assert_eq!(ids, vec!["task1"]);
    let reason = run(&mut manager, "http://server/anime", "task1", Ok(1000));
    assert_eq!(reason, ExitReason::Completed);
    let jobs = manager.get_jobs();
    assert_eq!(jobs[0].tasks[0].status, TaskStatus::Completed);
    assert_eq!(jobs[0].tasks[0].total_bytes, 1000);
    assert_eq!(jobs[0].tasks[0].progress_bytes, 1000);
}

#[test]
fn test_pause_then_resume_download_flow() {
    let mut manager = DownloadManager::new(settings(), vec![]);
    let job_url = "http://server/anime_pause".to_string();
    let task_id = "task-pause".to_string();
    manager.add_job(one_task_job(
        &job_url,
        "Pause Resume Test",
        &task_id,
        "http://server/video_pause.mp4",
        "EpPause.mp4",
        0,
    ));
    let mut w = TaskWorker::new(job_url.clone(), task_id.clone());
    manager.step(&mut w, WorkerEvent::Start);
    manager.step(&mut w, WorkerEvent::PermitGranted);
    manager.step(&mut w, WorkerEvent::Length(Ok(8_000_000)));
    manager.step(&mut w, WorkerEvent::FoldersReady(Ok(())));
    manager.step(&mut w, WorkerEvent::PartSizes(vec![None]));
    manager.pause(job_url.clone(), Some(task_id.clone()));
    manager.step(&mut w, WorkerEvent::Fetched(Err(FetchError::PausedByUser)));
    let jobs = manager.get_jobs();
    let task = jobs[0].tasks.iter().find(|t| t.id == task_id).unwrap();
    let paused = task.status == TaskStatus::Paused(PauseReason::UserRequest);
    assert!(paused, "task did not enter paused status");

    manager.resume(job_url.clone(), Some(task_id.clone())).unwrap();
    let reason = run(&mut manager, &job_url, &task_id, Ok(8_000_000));
    let jobs = manager.get_jobs();
    let task = jobs[0].tasks.iter().find(|t| t.id == task_id).unwrap();
    let completed = task.status == TaskStatus::Completed;
    assert!(completed, "task did not resume to completion");
    assert_eq!(reason, ExitReason::Completed);
    assert_eq!(task.progress_bytes, 8_000_000);
}

#[test]
fn test_expired_link_without_metadata_pauses_task() {
    let mut manager = DownloadManager::new(settings(), vec![]);
    let job_url = "http://server/anime_expired".to_string();
    manager.add_job(one_task_job(
        &job_url,
        "Expired Link",
        "task-expired",
        "http://server/expired.mp4",
        "Ep01.mp4",
        0,
    ));
    manager.start_download(job_url.clone()).unwrap();
    let reason = run(&mut manager, &job_url, "task-expired", Err(403));
    assert_eq!(reason, ExitReason::LinkExpired);
    let jobs = manager.get_jobs();
    let task = &jobs[0].tasks[0];
    let paused = task.status == TaskStatus::Paused(PauseReason::LinkExpired);
    assert!(paused, "expected task to pause with LinkExpired");
}

#[test]
fn operations_on_a_missing_job_are_refused() {
    let mut manager = DownloadManager::new(settings(), vec![]);
    assert_eq!(manager.start_download("nothing".to_string()), Err(ManagerError::JobNotFound));
    assert_eq!(manager.resume("nothing".to_string(), None), Err(ManagerError::JobNotFound));
    assert_eq!(manager.pause("nothing".to_string(), None), Vec::<String>::new());
    assert_eq!(ManagerError::JobNotFound.message(), "Job not found");
    assert_eq!(manager.is_episode_in_queue("nothing", 1), None);
}

#[test]
fn manager_recovers_what_it_is_given() {
    let mut job = one_task_job("J", "Show", "t1", "http://server/v.mp4", "Ep01.mp4", 0);
    job.tasks[0].status = TaskStatus::Downloading;
    let manager = DownloadManager::new(settings(), vec![job]);
    assert_eq!(manager.jobs[0].tasks[0].status, TaskStatus::Pending);
    assert_eq!(manager.is_episode_in_queue("J", 1), Some(TaskStatus::Pending));
    assert_eq!(manager.is_episode_in_queue("J", 2), None);
}

#[test]
fn buckets_and_clearing() {
    let mut done = one_task_job("done", "Done", "t1", "u", "f", 0);
    done.tasks[0].status = TaskStatus::Completed;
    let open = one_task_job("open", "Open", "t1", "u", "f", 0);
    let mut manager = DownloadManager::new(settings(), vec![done, open]);
    let buckets = manager.get_job_buckets();
    assert_eq!(buckets.active.len(), 1);
    assert_eq!(buckets.active[0].id, "open");
    assert_eq!(buckets.completed.len(), 1);
    assert_eq!(buckets.completed[0].id, "done");
    manager.clear_completed_jobs();
    assert_eq!(manager.get_jobs().len(), 1);
    manager.remove_job("open");
    assert!(manager.get_jobs().is_empty());
}

#[test]
fn settings_have_their_defaults() {
    let settings = Settings::with_download_dir("/data".to_string());
    assert_eq!(settings.download_dir, "/data");
    assert_eq!(settings.max_concurrent_downloads, 3);
    assert_eq!(settings.segments_per_file, 4);
    assert_eq!(settings.user_agent, "Mozilla/5.0 (Windows NT 10.0; Win64; x64) Aura/1.0");
    let copy = settings.clone();
    assert_eq!(copy.download_dir, "/data");
    assert_eq!(copy.segments_per_file, 4);
}

#[test]
fn a_task_paused_in_mid_transfer_finishes_after_a_crash() {
    // The ledger as it is on disk when the process dies between the pause and the rewinding of
    // the range in flight.
    let mut job = one_task_job("J", "Show", "t1", "http://server/v.mp4", "Ep01.mp4", 1000);
    job.tasks[0].status = TaskStatus::Paused(PauseReason::UserRequest);
    job.tasks[0].segments = vec![Segment {
        index: 0,
        start: 0,
        end: 999,
        downloaded: 0,
        status: SegmentStatus::Downloading,
    }];
    let mut manager = DownloadManager::new(settings(), vec![job]);
    assert_eq!(manager.jobs[0].tasks[0].status, TaskStatus::Paused(PauseReason::UserRequest));
    assert_eq!(manager.jobs[0].tasks[0].segments[0].status, SegmentStatus::Pending);
    manager.resume("J".to_string(), None).unwrap();
    assert_eq!(run(&mut manager, "J", "t1", Ok(1000)), ExitReason::Completed);
    assert_eq!(manager.jobs[0].tasks[0].status, TaskStatus::Completed);
}

#[test]
fn part_files_are_named_for_the_ranges_of_a_task() {
    let mut job = one_task_job("J", "Show", "t1", "http://server/v.mp4", "Ep01.mp4", 1000);
    job.tasks[0].segments = vec![
        Segment { index: 0, start: 0, end: 499, downloaded: 0, status: SegmentStatus::Pending },
        Segment { index: 1, start: 500, end: 999, downloaded: 0, status: SegmentStatus::Pending },
    ];
    let manager = DownloadManager::new(settings(), vec![job]);
    assert_eq!(manager.part_files("J", "t1"), vec!["part0.mp4", "part1.mp4"]);
    assert_eq!(manager.part_files("J", "t2"), Vec::<String>::new());
    assert_eq!(manager.part_files("K", "t1"), Vec::<String>::new());
}

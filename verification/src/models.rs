//! The data model: jobs, tasks and segments of the download queue, and what a scraper reports.
//!
//! Types that hold strings come with a view in which every string is a sequence of characters;
//! the contracts of the library are stated over those views.

use crate::text::opt_str_clone;
use vstd::prelude::*;

verus! {

/// Why a task was paused.
#[derive(Debug, Clone, Copy, PartialEq, Eq, Structural)]
pub enum PauseReason {
    UserRequest,
    LinkExpired,
    NetworkError,
    Unknown,
}

/// State of one byte range of a task.
#[derive(Debug, Clone, Copy, PartialEq, Eq, Structural)]
pub enum SegmentStatus {
    Pending,
    Downloading,
    Completed,
    Error,
}

/// A contiguous byte range `[start, end]` of the target file, fetched into a part file of its own.
#[derive(Debug, Clone, Copy, PartialEq, Eq, Structural)]
pub struct Segment {
    pub index: usize,
    pub start: u64,
    pub end: u64,
    pub downloaded: u64,
    pub status: SegmentStatus,
}

/// State of a task as observers see it.
#[derive(Debug, PartialEq)]
pub enum TaskStatus {
    Pending,
    Downloading,
    Paused(PauseReason),
    Completed,
    Error(String),
}

/// View of a [`TaskStatus`].
pub enum TaskStatusView {
    Pending,
    Downloading,
    Paused(PauseReason),
    Completed,
    Error(Seq<char>),
}

impl View for TaskStatus {
    type V = TaskStatusView;

    open spec fn view(&self) -> TaskStatusView {
        match self {
            TaskStatus::Pending => TaskStatusView::Pending,
            TaskStatus::Downloading => TaskStatusView::Downloading,
            TaskStatus::Paused(reason) => TaskStatusView::Paused(*reason),
            TaskStatus::Completed => TaskStatusView::Completed,
            TaskStatus::Error(message) => TaskStatusView::Error(message@),
        }
    }
}

impl DeepView for TaskStatus {
    type V = TaskStatusView;

    open spec fn deep_view(&self) -> TaskStatusView {
        self@
    }
}

impl Clone for TaskStatus {
    fn clone(&self) -> (copy: Self)
        ensures
            copy@ == self@,
    {
        match self {
            TaskStatus::Pending => TaskStatus::Pending,
            TaskStatus::Downloading => TaskStatus::Downloading,
            TaskStatus::Paused(reason) => TaskStatus::Paused(*reason),
            TaskStatus::Completed => TaskStatus::Completed,
            TaskStatus::Error(message) => TaskStatus::Error(message.clone()),
        }
    }
}

/// One file to download.
#[derive(Debug)]
pub struct DownloadTask {
    pub id: String,
    pub url: String,
    pub filename: String,
    pub status: TaskStatus,
    pub progress_bytes: u64,
    pub total_bytes: u64,
    pub episode_url: Option<String>,
    pub gate_id: Option<String>,
    pub episode_number: Option<u32>,
    pub segments: Vec<Segment>,
}

/// View of a [`DownloadTask`].
pub struct TaskView {
    pub id: Seq<char>,
    pub url: Seq<char>,
    pub filename: Seq<char>,
    pub status: TaskStatusView,
    pub progress_bytes: u64,
    pub total_bytes: u64,
    pub episode_url: Option<Seq<char>>,
    pub gate_id: Option<Seq<char>>,
    pub episode_number: Option<u32>,
    pub segments: Seq<Segment>,
}

impl TaskView {
    /// Whether the task carries what a resolver needs to give it a fresh URL.
    pub open spec fn refreshable(self) -> bool {
        self.episode_url is Some && self.gate_id is Some
    }
}

impl View for DownloadTask {
    type V = TaskView;

    open spec fn view(&self) -> TaskView {
        TaskView {
            id: self.id@,
            url: self.url@,
            filename: self.filename@,
            status: self.status@,
            progress_bytes: self.progress_bytes,
            total_bytes: self.total_bytes,
            episode_url: self.episode_url.deep_view(),
            gate_id: self.gate_id.deep_view(),
            episode_number: self.episode_number,
            segments: self.segments@,
        }
    }
}

impl DeepView for DownloadTask {
    type V = TaskView;

    open spec fn deep_view(&self) -> TaskView {
        self@
    }
}

impl Clone for DownloadTask {
    fn clone(&self) -> (copy: Self)
        ensures
            copy@ == self@,
    {
        DownloadTask {
            id: self.id.clone(),
            url: self.url.clone(),
            filename: self.filename.clone(),
            status: self.status.clone(),
            progress_bytes: self.progress_bytes,
            total_bytes: self.total_bytes,
            episode_url: opt_str_clone(&self.episode_url),
            gate_id: opt_str_clone(&self.gate_id),
            episode_number: self.episode_number,
            segments: self.segments.clone(),
        }
    }
}

/// A named group of tasks, keyed by `id`.
#[derive(Debug)]
pub struct DownloadJob {
    pub id: String,
    pub name: String,
    pub tasks: Vec<DownloadTask>,
}

/// View of a [`DownloadJob`].
pub struct JobView {
    pub id: Seq<char>,
    pub name: Seq<char>,
    pub tasks: Seq<TaskView>,
}

impl View for DownloadJob {
    type V = JobView;

    open spec fn view(&self) -> JobView {
        JobView { id: self.id@, name: self.name@, tasks: self.tasks.deep_view() }
    }
}

impl DeepView for DownloadJob {
    type V = JobView;

    open spec fn deep_view(&self) -> JobView {
        self@
    }
}

/// A copy of a list of tasks.
pub fn clone_tasks(tasks: &Vec<DownloadTask>) -> (copy: Vec<DownloadTask>)
    ensures
        copy.deep_view() == tasks.deep_view(),
{
    let mut copy: Vec<DownloadTask> = Vec::new();
    let mut i: usize = 0;
    while i < tasks.len()
        invariant
            i <= tasks.len(),
            copy.len() == i,
            forall|j: int| 0 <= j < i ==> #[trigger] copy[j]@ == tasks[j]@,
        decreases tasks.len() - i,
    {
        copy.push(tasks[i].clone());
        i = i + 1;
    }
    assert(copy.deep_view() =~= tasks.deep_view());
    copy
}

impl Clone for DownloadJob {
    fn clone(&self) -> (copy: Self)
        ensures
            copy@ == self@,
    {
        DownloadJob { id: self.id.clone(), name: self.name.clone(), tasks: clone_tasks(&self.tasks) }
    }
}

/// A copy of a list of jobs.
pub fn clone_jobs(jobs: &Vec<DownloadJob>) -> (copy: Vec<DownloadJob>)
    ensures
        copy.deep_view() == jobs.deep_view(),
{
    let mut copy: Vec<DownloadJob> = Vec::new();
    let mut i: usize = 0;
    while i < jobs.len()
        invariant
            i <= jobs.len(),
            copy.len() == i,
            forall|j: int| 0 <= j < i ==> #[trigger] copy[j]@ == jobs[j]@,
        decreases jobs.len() - i,
    {
        copy.push(jobs[i].clone());
        i = i + 1;
    }
    assert(copy.deep_view() =~= jobs.deep_view());
    copy
}

/// The queue split in two: jobs with work left, and jobs whose every task is completed.
#[derive(Debug)]
pub struct DownloadBuckets {
    pub active: Vec<DownloadJob>,
    pub completed: Vec<DownloadJob>,
}

/// One hit of a title search.
#[derive(Debug)]
pub struct SearchResult {
    pub title: String,
    pub url: String,
    pub image: String,
}

/// View of a [`SearchResult`].
pub struct SearchResultView {
    pub title: Seq<char>,
    pub url: Seq<char>,
    pub image: Seq<char>,
}

impl View for SearchResult {
    type V = SearchResultView;

    open spec fn view(&self) -> SearchResultView {
        SearchResultView { title: self.title@, url: self.url@, image: self.image@ }
    }
}

impl DeepView for SearchResult {
    type V = SearchResultView;

    open spec fn deep_view(&self) -> SearchResultView {
        self@
    }
}

impl Clone for SearchResult {
    fn clone(&self) -> (copy: Self)
        ensures
            copy@ == self@,
    {
        SearchResult { title: self.title.clone(), url: self.url.clone(), image: self.image.clone() }
    }
}

/// One episode of a season, with what is needed to resolve its media URL.
#[derive(Debug)]
pub struct Episode {
    pub name: String,
    pub number: u32,
    pub url: String,
    pub gate_id: String,
}

/// View of an [`Episode`].
pub struct EpisodeView {
    pub name: Seq<char>,
    pub number: u32,
    pub url: Seq<char>,
    pub gate_id: Seq<char>,
}

impl View for Episode {
    type V = EpisodeView;

    open spec fn view(&self) -> EpisodeView {
        EpisodeView { name: self.name@, number: self.number, url: self.url@, gate_id: self.gate_id@ }
    }
}

impl DeepView for Episode {
    type V = EpisodeView;

    open spec fn deep_view(&self) -> EpisodeView {
        self@
    }
}

impl Clone for Episode {
    fn clone(&self) -> (copy: Self)
        ensures
            copy@ == self@,
    {
        Episode {
            name: self.name.clone(),
            number: self.number,
            url: self.url.clone(),
            gate_id: self.gate_id.clone(),
        }
    }
}

/// What a season page tells of a title.
#[derive(Debug)]
pub struct AnimeInfo {
    pub title: String,
    pub url: String,
    pub episodes: Vec<Episode>,
    pub related: Vec<SearchResult>,
    pub year: Option<String>,
    pub tags: Option<Vec<String>>,
    pub description: Option<String>,
    pub japanese_title: Option<String>,
}

/// View of an [`AnimeInfo`].
pub struct AnimeInfoView {
    pub title: Seq<char>,
    pub url: Seq<char>,
    pub episodes: Seq<EpisodeView>,
    pub related: Seq<SearchResultView>,
    pub year: Option<Seq<char>>,
    pub tags: Option<Seq<Seq<char>>>,
    pub description: Option<Seq<char>>,
    pub japanese_title: Option<Seq<char>>,
}

impl View for AnimeInfo {
    type V = AnimeInfoView;

    open spec fn view(&self) -> AnimeInfoView {
        AnimeInfoView {
            title: self.title@,
            url: self.url@,
            episodes: self.episodes.deep_view(),
            related: self.related.deep_view(),
            year: self.year.deep_view(),
            tags: self.tags.deep_view(),
            description: self.description.deep_view(),
            japanese_title: self.japanese_title.deep_view(),
        }
    }
}

impl DeepView for AnimeInfo {
    type V = AnimeInfoView;

    open spec fn deep_view(&self) -> AnimeInfoView {
        self@
    }
}

/// One row of a chart of new or popular titles.
#[derive(Debug)]
pub struct ListEntry {
    pub title: String,
    pub url: String,
    pub image: String,
    pub latest_ep: String,
    pub time_ago: String,
    pub rank: Option<u32>,
}

/// View of a [`ListEntry`].
pub struct ListEntryView {
    pub title: Seq<char>,
    pub url: Seq<char>,
    pub image: Seq<char>,
    pub latest_ep: Seq<char>,
    pub time_ago: Seq<char>,
    pub rank: Option<u32>,
}

impl View for ListEntry {
    type V = ListEntryView;

    open spec fn view(&self) -> ListEntryView {
        ListEntryView {
            title: self.title@,
            url: self.url@,
            image: self.image@,
            latest_ep: self.latest_ep@,
            time_ago: self.time_ago@,
            rank: self.rank,
        }
    }
}

impl DeepView for ListEntry {
    type V = ListEntryView;

    open spec fn deep_view(&self) -> ListEntryView {
        self@
    }
}

impl Clone for ListEntry {
    fn clone(&self) -> (copy: Self)
        ensures
            copy@ == self@,
    {
        ListEntry {
            title: self.title.clone(),
            url: self.url.clone(),
            image: self.image.clone(),
            latest_ep: self.latest_ep.clone(),
            time_ago: self.time_ago.clone(),
            rank: self.rank,
        }
    }
}

/// Why scraping a page failed.
#[derive(Debug)]
pub enum ScrapeError {
    /// The request could not be made or answered; holds the transport's message.
    Request(String),
    /// The page did not have the expected shape.
    Parse(String),
    /// An element that every entry must have is missing.
    NotFound,
}

/// View of a [`ScrapeError`].
pub enum ScrapeErrorView {
    Request(Seq<char>),
    Parse(Seq<char>),
    NotFound,
}

impl View for ScrapeError {
    type V = ScrapeErrorView;

    open spec fn view(&self) -> ScrapeErrorView {
        match self {
            ScrapeError::Request(message) => ScrapeErrorView::Request(message@),
            ScrapeError::Parse(message) => ScrapeErrorView::Parse(message@),
            ScrapeError::NotFound => ScrapeErrorView::NotFound,
        }
    }
}

impl DeepView for ScrapeError {
    type V = ScrapeErrorView;

    open spec fn deep_view(&self) -> ScrapeErrorView {
        self@
    }
}

impl ScrapeError {
    /// The text shown for this error.
    pub open spec fn message_spec(self) -> Seq<char> {
        match self {
            ScrapeError::Request(message) => "Network request failed: "@ + message@,
            ScrapeError::Parse(message) => "Parsing failed: "@ + message@,
            ScrapeError::NotFound => "Element not found"@,
        }
    }

    /// The text shown for this error.
    pub fn message(&self) -> (text: String)
        ensures
            text@ == self.message_spec(),
    {
        match self {
            ScrapeError::Request(message) => crate::text::joined(
                "Network request failed: ",
                message.as_str(),
            ),
            ScrapeError::Parse(message) => crate::text::joined("Parsing failed: ", message.as_str()),
            ScrapeError::NotFound => "Element not found".to_string(),
        }
    }
}

/// What the parsers of pages return.
pub type ScrapeResult<T> = Result<T, ScrapeError>;

} // verus!

//! A persistent, segmented download manager and the scraper that feeds it.
//!
//! The library decides and keeps state; it performs no I/O. Whoever uses it makes the requests,
//! touches the disk and waits, and tells the library what came of it.
//!
//! - `models` and `config`: jobs, tasks, byte ranges and settings.
//! - `manager` and `queue`: the job list and the operations on it.
//! - `worker`: the state machine that drives one task, step by step.
//! - `segments`, `fetch` and `paths`: the rules of byte ranges, of transfers and of file names.
//! - `parser`, `dom` and `site`: reading the pages of the site, and its addresses.
//! - `frontend` and `i18n`: what front ends compute for their users.
//! - `text` and `seqs`: helpers on strings and sequences.
//! - `laws`: what holds of the manager and its workers in every state.

pub mod config;
pub mod dom;
pub mod fetch;
pub mod frontend;
pub mod i18n;
pub mod laws;
pub mod manager;
pub mod models;
pub mod parser;
pub mod paths;
pub mod queue;
pub mod segments;
pub mod seqs;
pub mod site;
pub mod text;
pub mod worker;

pub use config::Settings;
pub use manager::DownloadManager;
pub use models::{
    AnimeInfo, DownloadBuckets, DownloadJob, DownloadTask, Episode, ListEntry, PauseReason,
    ScrapeError, SearchResult, Segment, SegmentStatus, TaskStatus,
};

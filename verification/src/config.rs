//! The settings of the download manager.

use vstd::prelude::*;

verus! {

/// Process-wide configuration.
#[derive(Debug)]
pub struct Settings {
    /// Folder under which every job gets a folder of its own.
    pub download_dir: String,
    /// How many workers may use the network at a time.
    pub max_concurrent_downloads: usize,
    /// Into how many ranges a file is split.
    pub segments_per_file: usize,
    /// What the fetcher sends as `User-Agent`.
    pub user_agent: String,
}

/// View of [`Settings`].
pub struct SettingsView {
    pub download_dir: Seq<char>,
    pub max_concurrent_downloads: usize,
    pub segments_per_file: usize,
    pub user_agent: Seq<char>,
}

impl View for Settings {
    type V = SettingsView;

    open spec fn view(&self) -> SettingsView {
        SettingsView {
            download_dir: self.download_dir@,
            max_concurrent_downloads: self.max_concurrent_downloads,
            segments_per_file: self.segments_per_file,
            user_agent: self.user_agent@,
        }
    }
}

impl DeepView for Settings {
    type V = SettingsView;

    open spec fn deep_view(&self) -> SettingsView {
        self@
    }
}

impl Clone for Settings {
    fn clone(&self) -> (copy: Self)
        ensures
            copy@ == self@,
    {
        Settings {
            download_dir: self.download_dir.clone(),
            max_concurrent_downloads: self.max_concurrent_downloads,
            segments_per_file: self.segments_per_file,
            user_agent: self.user_agent.clone(),
        }
    }
}

/// Concurrent downloads allowed where nothing else is configured.
pub const DEFAULT_MAX_CONCURRENT_DOWNLOADS: usize = 3;

/// Ranges per file where nothing else is configured.
pub const DEFAULT_SEGMENTS_PER_FILE: usize = 4;

impl Settings {
    /// The settings that apply where nothing is configured, for a given download folder.
    pub open spec fn defaults(download_dir: Seq<char>) -> SettingsView {
        SettingsView {
            download_dir,
            max_concurrent_downloads: 3,
            segments_per_file: 4,
            user_agent: "Mozilla/5.0 (Windows NT 10.0; Win64; x64) Aura/1.0"@,
        }
    }

    /// The settings that apply where nothing is configured: three downloads at a time, four
    /// ranges per file, and the manager's own user agent.
    pub fn with_download_dir(download_dir: String) -> (settings: Settings)
        ensures
            settings@ == Settings::defaults(download_dir@),
    {
        Settings {
            download_dir,
            max_concurrent_downloads: DEFAULT_MAX_CONCURRENT_DOWNLOADS,
            segments_per_file: DEFAULT_SEGMENTS_PER_FILE,
            user_agent: "Mozilla/5.0 (Windows NT 10.0; Win64; x64) Aura/1.0".to_string(),
        }
    }
}

} // verus!

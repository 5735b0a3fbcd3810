//! What a front end computes between asking and showing: which episodes a typed selection
//! means, how a task is shown, and how an episode becomes a task.

use crate::models::{
    DownloadTask, Episode, EpisodeView, PauseReason, TaskStatus, TaskStatusView, TaskView,
};
use crate::text::{
    chars_of, contains_char, decimal, parse_decimal, parse_u32_chars, push_decimal, split_chars,
    split_on, trim_chars, trimmed, views,
};
use std::collections::HashSet;
use vstd::prelude::*;

verus! {

broadcast use vstd::std_specs::hash::group_hash_axioms;

/// The number that a text shows, as an episode number.
pub open spec fn number_in(text: Seq<char>) -> Option<nat> {
    parse_decimal(text, u32::MAX as nat)
}

/// Whether one trimmed part of a selection means the episode `n`. A part with a hyphen means a
/// range: it must have exactly two sides, both numbers, and means every episode from the first
/// to the second. Any other part means the one episode whose number it is.
pub open spec fn part_means(part: Seq<char>, n: u32) -> bool {
    if part.contains('-') {
        let sides = split_on(part, '-');
        &&& sides.len() == 2
        &&& number_in(trimmed(sides[0])) is Some
        &&& number_in(trimmed(sides[1])) is Some
        &&& number_in(trimmed(sides[0]))->0 <= n <= number_in(trimmed(sides[1]))->0
    } else {
        number_in(part) == Some(n as nat)
    }
}

/// Whether one of the first `count` parts of a selection means the episode `n`.
pub open spec fn parts_mean(parts: Seq<Seq<char>>, count: int, n: u32) -> bool {
    exists|i: int| 0 <= i < count && i < parts.len() && part_means(trimmed(#[trigger] parts[i]), n)
}

/// Whether a selection means the episode `n`: a selection is a list of parts between commas.
pub open spec fn selects(input: Seq<char>, n: u32) -> bool {
    parts_mean(split_on(input, ','), split_on(input, ',').len() as int, n)
}

/// Adds the episodes from `first` to `last` to a selection.
fn add_range(selection: &mut HashSet<u32>, first: u32, last: u32)
    ensures
        forall|n: u32|
            final(selection)@.contains(n) <==> old(selection)@.contains(n) || first <= n <= last,
{
    if first > last {
        return ;
    }
    let mut i: u32 = first;
    loop
        invariant_except_break
            forall|n: u32|
                selection@.contains(n) <==> old(selection)@.contains(n) || first <= n < i,
        invariant
            first <= i <= last,
        ensures
            forall|n: u32|
                selection@.contains(n) <==> old(selection)@.contains(n) || first <= n <= last,
        decreases last - i,
    {
        selection.insert(i);
        if i == last {
            break ;
        }
        i = i + 1;
    }
}

/// Adds the episodes that one trimmed part of a selection means.
fn add_part(selection: &mut HashSet<u32>, part: &Vec<char>)
    ensures
        forall|n: u32|
            final(selection)@.contains(n) <==> old(selection)@.contains(n) || part_means(part@, n),
{
    if contains_char(part, '-') {
        let sides = split_chars(part, '-');
        if sides.len() == 2 {
            let first = parse_u32_chars(&trim_chars(&sides[0]));
            let last = parse_u32_chars(&trim_chars(&sides[1]));
            assert(views(sides@)[0] == sides@[0]@);
            assert(views(sides@)[1] == sides@[1]@);
            match (first, last) {
                (Some(a), Some(b)) => {
                    add_range(selection, a, b);
                },
                _ => {},
            }
        }
    } else {
        match parse_u32_chars(part) {
            Some(n) => {
                selection.insert(n);
            },
            None => {},
        }
    }
}

/// Reads a selection of episodes such as `1-4, 6`: the set of the episodes that it means.
/// Parts that mean nothing are passed over.
pub fn parse_episode_range(input: &str) -> (selection: HashSet<u32>)
    ensures
        forall|n: u32| selection@.contains(n) <==> selects(input@, n),
{
    let mut selection: HashSet<u32> = HashSet::new();
    let chars = chars_of(input);
    let parts = split_chars(&chars, ',');
    let mut k: usize = 0;
    while k < parts.len()
        invariant
            k <= parts.len(),
            views(parts@) == split_on(input@, ','),
            forall|n: u32| selection@.contains(n) <==> parts_mean(views(parts@), k as int, n),
        decreases parts.len() - k,
    {
        let part = trim_chars(&parts[k]);
        let ghost before = selection@;
        add_part(&mut selection, &part);
        proof {
            assert(views(parts@)[k as int] == parts@[k as int]@);
            assert forall|n: u32| selection@.contains(n) <==> parts_mean(
                views(parts@),
                k + 1,
                n,
            ) by {
                if parts_mean(views(parts@), k + 1, n) {
                    let i = choose|i: int|
                        0 <= i < k + 1 && i < views(parts@).len() && part_means(
                            trimmed(#[trigger] views(parts@)[i]),
                            n,
                        );
                    if i < k {
                        assert(parts_mean(views(parts@), k as int, n));
                    }
                }
                if before.contains(n) {
                    let i = choose|i: int|
                        0 <= i < k && i < views(parts@).len() && part_means(
                            trimmed(#[trigger] views(parts@)[i]),
                            n,
                        );
                    assert(part_means(trimmed(views(parts@)[i]), n));
                }
                if part_means(part@, n) {
                    assert(part_means(trimmed(views(parts@)[k as int]), n));
                }
            }
        }
        k = k + 1;
    }
    selection
}

/// The mark that the monitor shows for a task.
pub open spec fn monitor_mark(status: TaskStatusView) -> Seq<char> {
    match status {
        TaskStatusView::Pending => "[WAIT]"@,
        TaskStatusView::Downloading => "[DOWN]"@,
        TaskStatusView::Paused(PauseReason::UserRequest) => "[PAUS]"@,
        TaskStatusView::Paused(PauseReason::LinkExpired) => "[EXPR]"@,
        TaskStatusView::Paused(PauseReason::NetworkError) => "[NETE]"@,
        TaskStatusView::Paused(PauseReason::Unknown) => "[PAUS]"@,
        TaskStatusView::Completed => "[DONE]"@,
        TaskStatusView::Error(_) => "[ERR ]"@,
    }
}

/// The mark that the monitor shows for a task.
pub fn monitor_tag(status: &TaskStatus) -> (mark: &'static str)
    ensures
        mark@ == monitor_mark(status@),
{
    match status {
        TaskStatus::Pending => "[WAIT]",
        TaskStatus::Downloading => "[DOWN]",
        TaskStatus::Paused(PauseReason::UserRequest) => "[PAUS]",
        TaskStatus::Paused(PauseReason::LinkExpired) => "[EXPR]",
        TaskStatus::Paused(PauseReason::NetworkError) => "[NETE]",
        TaskStatus::Paused(PauseReason::Unknown) => "[PAUS]",
        TaskStatus::Completed => "[DONE]",
        TaskStatus::Error(_) => "[ERR ]",
    }
}

/// The mark that the list of episodes shows for an episode: done where its file is on disk,
/// else by the status of its task in the queue, else blank.
pub open spec fn episode_mark(on_disk: bool, queued: Option<TaskStatusView>) -> Seq<char> {
    if on_disk {
        "[DONE]"@
    } else {
        match queued {
            Some(TaskStatusView::Pending) => "[PEND]"@,
            Some(TaskStatusView::Downloading) => "[DOWN]"@,
            Some(TaskStatusView::Paused(_)) => "[PAUS]"@,
            Some(TaskStatusView::Error(_)) => "[ERR ]"@,
            Some(TaskStatusView::Completed) => "[DONE]"@,
            None => "[    ]"@,
        }
    }
}

/// The mark that the list of episodes shows for an episode.
pub fn episode_tag(on_disk: bool, queued: &Option<TaskStatus>) -> (mark: &'static str)
    ensures
        mark@ == episode_mark(on_disk, queued.deep_view()),
{
    if on_disk {
        "[DONE]"
    } else {
        match queued {
            Some(TaskStatus::Pending) => "[PEND]",
            Some(TaskStatus::Downloading) => "[DOWN]",
            Some(TaskStatus::Paused(_)) => "[PAUS]",
            Some(TaskStatus::Error(_)) => "[ERR ]",
            Some(TaskStatus::Completed) => "[DONE]",
            None => "[    ]",
        }
    }
}

/// How far a task is, as shown: the bytes on disk in hundredths of the whole, rounded down, or a
/// question mark where the size of the whole is not known.
pub open spec fn percent_shown(bytes: u64, total: u64) -> Seq<char> {
    if total > 0 {
        decimal((bytes as nat * 100 / total as nat) as nat) + "%"@
    } else {
        "?%"@
    }
}

/// How far a task is, as shown.
pub fn percent_text(bytes: u64, total: u64) -> (text: String)
    ensures
        text@ == percent_shown(bytes, total),
{
    if total > 0 {
        let mut text = String::new();
        let hundredths: u128 = (bytes as u128) * 100 / (total as u128);
        push_decimal(&mut text, hundredths);
        text.append("%");
        assert(text@ =~= percent_shown(bytes, total));
        text
    } else {
        "?%".to_string()
    }
}

/// A size in whole megabytes, rounded down.
pub fn megabytes(bytes: u64) -> (mb: u64)
    ensures
        mb == bytes / 1048576,
{
    bytes / (1024 * 1024)
}

/// The id of the task for the episode `number` of the job `job_id`.
pub open spec fn task_id_of(job_id: Seq<char>, number: u32) -> Seq<char> {
    job_id + "-ep"@ + decimal(number as nat)
}

/// The task that downloads an episode: pending, with nothing downloaded and no size known, and
/// with what the resolver needs to refresh its link.
pub open spec fn task_for(job_id: Seq<char>, episode: EpisodeView, link: Seq<char>, filename: Seq<char>)
    -> TaskView {
    TaskView {
        id: task_id_of(job_id, episode.number),
        url: link,
        filename,
        status: TaskStatusView::Pending,
        progress_bytes: 0,
        total_bytes: 0,
        episode_url: Some(episode.url),
        gate_id: Some(episode.gate_id),
        episode_number: Some(episode.number),
        segments: Seq::empty(),
    }
}

/// Makes the task that downloads an episode from `link` into the file `filename`.
pub fn episode_task(job_id: &str, episode: &Episode, link: String, filename: String) -> (task:
    DownloadTask)
    ensures
        task@ == task_for(job_id@, episode@, link@, filename@),
{
    let mut id = job_id.to_string();
    id.append("-ep");
    push_decimal(&mut id, episode.number as u128);
    DownloadTask {
        id,
        url: link,
        filename,
        status: TaskStatus::Pending,
        progress_bytes: 0,
        total_bytes: 0,
        episode_url: Some(episode.url.clone()),
        gate_id: Some(episode.gate_id.clone()),
        episode_number: Some(episode.number),
        segments: Vec::new(),
    }
}

/// What is said after episodes were added to the queue.
pub open spec fn added_report(count: usize, skipped: usize) -> Seq<char> {
    if skipped > 0 {
        "Added "@ + decimal(count as nat) + " episodes to queue ("@ + decimal(skipped as nat)
            + " already downloaded)."@
    } else {
        "Added "@ + decimal(count as nat) + " episodes to download queue."@
    }
}

/// What is said after `count` episodes were added to the queue and `skipped` were passed over
/// because their files are on disk.
pub fn added_message(count: usize, skipped: usize) -> (text: String)
    ensures
        text@ == added_report(count, skipped),
{
    let mut text = "Added ".to_string();
    push_decimal(&mut text, count as u128);
    if skipped > 0 {
        text.append(" episodes to queue (");
        push_decimal(&mut text, skipped as u128);
        text.append(" already downloaded).");
    } else {
        text.append(" episodes to download queue.");
    }
    text
}

/// Whether the standard library counts `c` as a letter or a number (Unicode `Alphabetic`, `Nd`,
/// `Nl` or `No`).
pub uninterp spec fn alphanumeric(c: char) -> bool;

/// `char::is_alphanumeric` of the standard library; its result is known only by name.
pub assume_specification[ char::is_alphanumeric ](c: char) -> (yes: bool)
    ensures
        yes == alphanumeric(c),
;

/// What a character becomes in the name of a folder, given whether it is a letter or a number:
/// letters, numbers, blanks and hyphens stay, and every other character becomes an underscore.
pub open spec fn kept_or_underscore(c: char, letter_or_number: bool) -> char {
    if letter_or_number || c == ' ' || c == '-' {
        c
    } else {
        '_'
    }
}

/// Decides what a character becomes in the name of a folder, given whether it is a letter or a
/// number.
pub fn folder_char(c: char, letter_or_number: bool) -> (kept: char)
    ensures
        kept == kept_or_underscore(c, letter_or_number),
{
    if letter_or_number || c == ' ' || c == '-' {
        c
    } else {
        '_'
    }
}

/// What a character of a title becomes in the name of its folder.
pub open spec fn safe_char(c: char) -> char {
    kept_or_underscore(c, alphanumeric(c))
}

/// The name of the folder of a title.
pub open spec fn safe_name(title: Seq<char>) -> Seq<char> {
    Seq::new(title.len(), |i: int| safe_char(title[i]))
}

/// The name of the folder in which a front end looks for the episodes of a title.
pub fn safe_folder_name(title: &str) -> (name: String)
    ensures
        name@ == safe_name(title@),
{
    let chars = chars_of(title);
    let mut name = String::new();
    let mut i: usize = 0;
    while i < chars.len()
        invariant
            i <= chars.len(),
            name@ == safe_name(chars@.take(i as int)),
        decreases chars.len() - i,
    {
        let c = chars[i];
        name.push(folder_char(c, c.is_alphanumeric()));
        assert(name@ =~= safe_name(chars@.take(i + 1)));
        i = i + 1;
    }
    assert(chars@.take(chars.len() as int) =~= chars@);
    name
}

} // verus!

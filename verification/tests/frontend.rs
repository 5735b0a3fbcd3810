use aura_core::frontend::{
    added_message, episode_tag, episode_task, folder_char, megabytes, monitor_tag,
    parse_episode_range, percent_text, safe_folder_name,
};
use aura_core::models::{Episode, PauseReason, TaskStatus};
use aura_core::site::{
    episode_page_url, gate_cookie, new_path, page_url, popular_path, search_path, season_path,
};

fn selected(input: &str) -> Vec<u32> {
    let mut numbers: Vec<u32> = parse_episode_range(input).into_iter().collect();
    numbers.sort();
    numbers
}

#[test]
fn selections_are_read() {
    assert_eq!(selected("1-4, 6"), vec![1, 2, 3, 4, 6]);
    assert_eq!(selected("3"), vec![3]);
    assert_eq!(selected(" 7 ,7, 7"), vec![7]);
    assert_eq!(selected("2 - 3"), vec![2, 3]);
    assert_eq!(selected("5-5"), vec![5]);
    assert_eq!(selected("0-2"), vec![0, 1, 2]);
    assert_eq!(selected("+4"), vec![4]);
    assert_eq!(selected("4294967294-4294967295"), vec![4294967294, 4294967295]);
}

#[test]
fn parts_that_mean_nothing_are_passed_over() {
    assert_eq!(selected(""), Vec::<u32>::new());
    assert_eq!(selected(" , ,"), Vec::<u32>::new());
    assert_eq!(selected("4-1"), Vec::<u32>::new());
    assert_eq!(selected("1-2-3"), Vec::<u32>::new());
    assert_eq!(selected("-5"), Vec::<u32>::new());
    assert_eq!(selected("5-"), Vec::<u32>::new());
    assert_eq!(selected("a-b"), Vec::<u32>::new());
    assert_eq!(selected("one, 2, three-4, 5 6"), vec![2]);
    assert_eq!(selected("1 2"), Vec::<u32>::new());
    assert_eq!(selected("4294967296"), Vec::<u32>::new());
    assert_eq!(selected("9,x,10-11"), vec![9, 10, 11]);
}

#[test]
fn tasks_have_their_marks() {
    assert_eq!(monitor_tag(&TaskStatus::Pending), "[WAIT]");
    assert_eq!(monitor_tag(&TaskStatus::Downloading), "[DOWN]");
    assert_eq!(monitor_tag(&TaskStatus::Paused(PauseReason::UserRequest)), "[PAUS]");
    assert_eq!(monitor_tag(&TaskStatus::Paused(PauseReason::LinkExpired)), "[EXPR]");
    assert_eq!(monitor_tag(&TaskStatus::Paused(PauseReason::NetworkError)), "[NETE]");
    assert_eq!(monitor_tag(&TaskStatus::Paused(PauseReason::Unknown)), "[PAUS]");
    assert_eq!(monitor_tag(&TaskStatus::Completed), "[DONE]");
    assert_eq!(monitor_tag(&TaskStatus::Error("x".to_string())), "[ERR ]");
    assert_eq!(episode_tag(true, &None), "[DONE]");
    assert_eq!(episode_tag(true, &Some(TaskStatus::Pending)), "[DONE]");
    assert_eq!(episode_tag(false, &None), "[    ]");
    assert_eq!(episode_tag(false, &Some(TaskStatus::Pending)), "[PEND]");
    assert_eq!(episode_tag(false, &Some(TaskStatus::Downloading)), "[DOWN]");
    assert_eq!(episode_tag(false, &Some(TaskStatus::Paused(PauseReason::LinkExpired))), "[PAUS]");
    assert_eq!(episode_tag(false, &Some(TaskStatus::Error("x".to_string()))), "[ERR ]");
    assert_eq!(episode_tag(false, &Some(TaskStatus::Completed)), "[DONE]");
}

#[test]
fn progress_is_shown_in_hundredths() {
    assert_eq!(percent_text(50, 200), "25%");
    assert_eq!(percent_text(0, 200), "0%");
    assert_eq!(percent_text(199, 200), "99%");
    assert_eq!(percent_text(200, 200), "100%");
    assert_eq!(percent_text(300, 200), "150%");
    assert_eq!(percent_text(7, 0), "?%");
    assert_eq!(percent_text(u64::MAX, 1), "1844674407370955161500%");
    assert_eq!(percent_text(u64::MAX, u64::MAX), "100%");
    assert_eq!(megabytes(0), 0);
    assert_eq!(megabytes(1048575), 0);
    assert_eq!(megabytes(1048576), 1);
    assert_eq!(megabytes(8_000_000), 7);
}

#[test]
fn folder_names_keep_letters_numbers_blanks_and_hyphens() {
    let expected = |title: &str| {
        title.replace(|c: char| !c.is_alphanumeric() && c != ' ' && c != '-', "_")
    };
    for title in [
        "Re:Zero - Starting Life",
        "Plain Title 2",
        "Ünïcödé 日本語!",
        "a/b\\c:d*e?f\"g<h>i|j",
        "",
        "٣ ½ Ⅷ ²",
        "under_score.dot",
    ] {
        assert_eq!(safe_folder_name(title), expected(title), "folder of {:?}", title);
    }
    assert_eq!(safe_folder_name("Re:Zero - Starting Life"), "Re_Zero - Starting Life");
}

#[test]
fn an_episode_becomes_a_task() {
    let episode = Episode {
        name: "Episode 3".to_string(),
        number: 3,
        url: "episode.php?e3".to_string(),
        gate_id: "g3".to_string(),
    };
    let task = episode_task(
        "/anime.php?show",
        &episode,
        "https://cdn/video.mp4".to_string(),
        "/downloads/Show/Ep03.mp4".to_string(),
    );
    assert_eq!(task.id, "/anime.php?show-ep3");
    assert_eq!(task.url, "https://cdn/video.mp4");
    assert_eq!(task.filename, "/downloads/Show/Ep03.mp4");
    assert_eq!(task.status, TaskStatus::Pending);
    assert_eq!(task.progress_bytes, 0);
    assert_eq!(task.total_bytes, 0);
    assert_eq!(task.episode_url, Some("episode.php?e3".to_string()));
    assert_eq!(task.gate_id, Some("g3".to_string()));
    assert_eq!(task.episode_number, Some(3));
    assert!(task.segments.is_empty());
}

#[test]
fn additions_are_reported() {
    assert_eq!(added_message(3, 0), "Added 3 episodes to download queue.");
    assert_eq!(added_message(2, 1), "Added 2 episodes to queue (1 already downloaded).");
    assert_eq!(added_message(0, 12), "Added 0 episodes to queue (12 already downloaded).");
}

#[test]
fn addresses_of_the_site() {
    assert_eq!(page_url("/new.php"), "https://animeheaven.me//new.php");
    assert_eq!(page_url("anime.php?x"), "https://animeheaven.me/anime.php?x");
    assert_eq!(search_path("slime"), "/search.php?s=slime");
    assert_eq!(new_path(), "/new.php");
    assert_eq!(popular_path(), "/popular.php");
    assert_eq!(season_path("https://animeheaven.me/anime.php?17c9p"), "/anime.php?17c9p");
    assert_eq!(season_path("/anime.php?17c9p"), "/anime.php?17c9p");
    assert_eq!(season_path("anime.php?17c9p"), "anime.php?17c9p");
    assert_eq!(season_path("http://other.site/x"), "http://other.site/x");
    assert_eq!(
        season_path("https://mirror/?u=https://animeheaven.me/a&v=https://animeheaven.me/b"),
        "https://mirror/?u=/a&v=https://animeheaven.me/b"
    );
    assert_eq!(episode_page_url("episode.php?e1"), "https://animeheaven.me/episode.php?e1");
    assert_eq!(gate_cookie("abc123"), "key=abc123");
}

#[test]
fn folder_characters_are_kept_or_replaced() {
    assert_eq!(folder_char('a', true), 'a');
    assert_eq!(folder_char('7', true), '7');
    assert_eq!(folder_char(' ', false), ' ');
    assert_eq!(folder_char('-', false), '-');
    assert_eq!(folder_char(':', false), '_');
    assert_eq!(folder_char('_', false), '_');
    assert_eq!(folder_char('/', false), '_');
}

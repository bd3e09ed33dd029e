use goal_bot::auth::{basic_authorization, bearer_authorization};
use goal_bot::comments::{
    checked_comment_body_from_json, comment_json_url, contains_url, flatten_comment_with_replies,
    is_aa_comment, Comment,
};
use goal_bot::competition::{Competition, CompetitionName};
use goal_bot::config::Config;
use goal_bot::handle::{now_nanos, time_of_day_nanos, PostingAction, PostingEvent, RedditHandleState};
use goal_bot::numbers::{decimal_chars, parse_i64};
use goal_bot::reddit_scrape::RedditSubmission;
use goal_bot::telegram::{
    after_download_attempt, after_send_video_attempt, link_message, random_video_file_name,
    video_file_name, NextAttempt,
};

fn empty_config() -> Config {
    Config::init(|name: CompetitionName| Competition::new(name, Vec::new(), 1, 2))
}

fn comment(id: &str, parent: &str, body: &str, html: &str, replies: Vec<Comment>) -> Comment {
    Comment {
        id: Some(id.to_string()),
        parent_id: Some(parent.to_string()),
        body: Some(body.to_string()),
        body_html: Some(html.to_string()),
        replies,
    }
}

#[test]
fn test_regex() {
    assert!(contains_url("google.com"));
    assert!(contains_url("www.google.com"));
    assert!(contains_url("https://www.google.com"));
    assert!(contains_url("https://google.com"));
    assert!(contains_url("asdf https://google.com jklö"));
    assert!(!contains_url("google"));
    assert!(contains_url("google.com?key=value"));
}

#[test]
fn replies_appear_twice_when_flattened() {
    let leaf = comment("c", "t1_b", "", "", Vec::new());
    let mid = comment("b", "t1_a", "", "", vec![leaf]);
    let root = comment("a", "t3_s", "", "", vec![mid]);
    let ids: Vec<String> = flatten_comment_with_replies(&root)
        .iter()
        .map(|c| c.id.clone().unwrap())
        .collect();
    assert_eq!(ids, vec!["a", "b", "b", "c", "c"]);
}

#[test]
fn replay_comments_are_forwarded_once() {
    let config = empty_config();
    let mut state = RedditHandleState::issued_at(config, 0);
    let competition = Competition::new(CompetitionName::Bundesliga, Vec::new(), 1, 2);
    let submission = RedditSubmission {
        id: "s1".to_string(),
        url: "https://streamin.me/v/1".to_string(),
        title: "A - B".to_string(),
        created_utc: 0,
    };
    state.register_message_for_replays_at(&competition, &submission, 7, 0);
    assert!(state.check_if_submission_was_already_posted(&competition, &submission));
    let replay = comment("r1", "t1_aa", "", "<a href=\"https://cazn.me/m/1\">REPLAY</a>", Vec::new());
    let chatter = comment("r2", "t1_aa", "", "no link here", Vec::new());
    let aa = comment("aa", "t3_s1", "Mirrors / Alternative Angles", "", vec![replay, chatter]);
    assert!(is_aa_comment(&aa));
    let comments = vec![aa];
    let first = state.checked_select_replay_comments("s1", &comments).unwrap().unwrap();
    assert_eq!(first, vec!["r1".to_string()]);
    let second = state.checked_select_replay_comments("s1", &comments).unwrap().unwrap();
    assert!(second.is_empty());
    assert_eq!(state.listen_for_replays_submission_ids[0].sent_comment_ids.len(), 4);
}

#[test]
fn missing_parent_aborts_the_replay_search() {
    let mut state = RedditHandleState::issued_at(empty_config(), 0);
    let mut orphan = comment("x", "", "", "", Vec::new());
    orphan.parent_id = None;
    let aa = comment("aa", "t3_s1", "Mirrors / Alternative Angles", "", Vec::new());
    assert!(state.checked_select_replay_comments("s1", &vec![aa, orphan]).is_none());
    let none = comment("n", "t3_s1", "hello", "", Vec::new());
    assert_eq!(state.checked_select_replay_comments("s1", &vec![none]), Some(None));
}

#[test]
fn stale_goals_are_dropped() {
    let mut state = RedditHandleState::issued_at(empty_config(), 0);
    let competition = Competition::new(CompetitionName::Bundesliga, Vec::new(), 1, 2);
    let hour: u64 = 3_600_000_000_000;
    for (id, added) in [("a", 0u64), ("b", 3 * hour), ("c", 23 * hour)] {
        let s = RedditSubmission { id: id.to_string(), url: String::new(), title: String::new(), created_utc: 0 };
        state.register_message_for_replays_at(&competition, &s, 1, added);
    }
    state.drop_stale_submissions_at(hour);
    let ids: Vec<&str> = state
        .listen_for_replays_submission_ids
        .iter()
        .map(|g| g.submission_id.as_str())
        .collect();
    assert_eq!(ids, vec!["a"]);
    // Dropping again at the same moment keeps what the first drop kept.
    state.drop_stale_submissions_at(hour);
    assert_eq!(state.listen_for_replays_submission_ids.len(), 1);
    assert_eq!(state.listen_for_replays_submission_ids[0].submission_id, "a");
}

#[test]
fn tokens_are_refreshed_in_their_last_hour() {
    let second: i128 = 1_000_000_000;
    let mut state = RedditHandleState::issued_at(empty_config(), 0);
    assert!(!state.needs_refresh_at(0));
    assert!(!state.needs_refresh_at(82_800 * second));
    assert!(state.needs_refresh_at(82_801 * second));
    assert!(!state.needs_refresh_at(-5 * second));
    // Differences beyond the range of the arithmetic still decide.
    assert!(state.needs_refresh_at(i128::MAX));
    state.token_refreshed_at(i128::MIN);
    assert!(state.needs_refresh_at(i128::MAX));
    state.token_refreshed_at(90_000 * second);
    assert!(!state.needs_refresh_at(90_000 * second));
}

#[test]
fn the_clock_drives_the_state() {
    // 2020-01-01 in nanoseconds since the Unix epoch.
    let recent: i128 = 1_577_836_800 * 1_000_000_000;
    let mut state = RedditHandleState::new(empty_config());
    assert!(state.token_created_at > recent);
    assert!(now_nanos() >= state.token_created_at);
    assert!(!state.should_refresh_token());
    state.token_refreshed_at(0);
    assert!(state.should_refresh_token());
    state.token_refreshed();
    assert!(state.token_created_at > recent);
    assert!(time_of_day_nanos() < 86_400 * 1_000_000_000 + 2_000_000_000);
    let competition = Competition::new(CompetitionName::Bundesliga, Vec::new(), 1, 2);
    let submission = RedditSubmission {
        id: "s".to_string(),
        url: String::new(),
        title: String::new(),
        created_utc: 0,
    };
    state.register_message_for_replays(&competition, &submission, 3);
    assert_eq!(state.listen_for_replays_submission_ids.len(), 1);
    assert_eq!(state.listen_for_replays_submission_ids[0].reply_id, 3);
    // A goal posted a moment ago is still watched.
    state.drop_stale_submissions();
    assert_eq!(state.listen_for_replays_submission_ids.len(), 1);
}

#[test]
fn clip_files_get_fresh_names() {
    let a = random_video_file_name();
    let b = random_video_file_name();
    assert_eq!(a.len(), 34);
    assert!(a.ends_with(".mp4"));
    assert!(a[..30].chars().all(|c| c.is_ascii_alphanumeric()));
    assert_ne!(a, b);
}

#[test]
fn posting_follows_the_steps() {
    let state = RedditHandleState::issued_at(empty_config(), 0);
    let competition = Competition::new(CompetitionName::Bundesliga, Vec::new(), 1, 2);
    let submission = RedditSubmission {
        id: "s".to_string(),
        url: "https://streamin.me/v/1".to_string(),
        title: "t".to_string(),
        created_utc: 0,
    };
    match state.next_posting_action(&competition, &submission, PostingEvent::Start) {
        PostingAction::Scrape(u) => assert_eq!(u, "https://streamin.me/v/1"),
        _ => panic!("expected a scrape"),
    }
    assert!(matches!(
        state.next_posting_action(&competition, &submission, PostingEvent::ScrapeFailed),
        PostingAction::SendLinkThenRegister
    ));
    assert!(matches!(
        state.next_posting_action(&competition, &submission, PostingEvent::VideoSent("f.mp4".to_string())),
        PostingAction::DeleteFileThenRegister(p) if p == "f.mp4"
    ));
}

#[test]
fn comment_bodies_are_read_from_json() {
    let json = r#"[{}, {"data": {"children": [{"data": {"body_html": "&lt;div class=\"md\"&gt;&lt;p&gt;&lt;a href=\"https://cazn.me/m/84617f\"&gt;REPLAY &lt;/a&gt;&lt;/p&gt;\n&lt;/div&gt;"}}]}}]"#;
    assert_eq!(
        checked_comment_body_from_json(json),
        Some(Some("<a href=\"https://cazn.me/m/84617f\">REPLAY </a>\n".to_string()))
    );
    assert_eq!(checked_comment_body_from_json("not json"), None);
    assert_eq!(checked_comment_body_from_json("[]"), Some(None));
    assert_eq!(
        comment_json_url("17778ok", "k4r336t"),
        "https://old.reddit.com/r/soccer/comments/17778ok//k4r336t.json"
    );
}

#[test]
fn telegram_texts() {
    assert_eq!(link_message("Goal", "https://a.b/c"), "<b><a href=\"https://a.b/c\">Goal</a></b>");
    assert_eq!(video_file_name("abc"), "abc.mp4");
}

#[test]
fn retry_schedules() {
    assert!(matches!(after_download_attempt(9, false), NextAttempt::Retry { wait_secs: 10 }));
    assert!(matches!(after_download_attempt(10, false), NextAttempt::GiveUp { .. }));
    assert!(matches!(after_download_attempt(3, true), NextAttempt::Done));
    assert!(matches!(after_send_video_attempt(1, false), NextAttempt::Retry { wait_secs: 0 }));
    assert!(matches!(after_send_video_attempt(8, false), NextAttempt::Retry { wait_secs: 30 }));
    assert!(matches!(after_send_video_attempt(9, false), NextAttempt::GiveUp { wait_secs: 30 }));
}

#[test]
fn authorization_headers() {
    assert_eq!(basic_authorization("abc"), "Basic YWJjOg==");
    assert_eq!(bearer_authorization("tok"), "Bearer tok");
}

#[test]
fn numbers_are_written_and_read() {
    assert_eq!(decimal_chars(0).iter().collect::<String>(), "0");
    assert_eq!(decimal_chars(10_000).iter().collect::<String>(), "10000");
    let p = |s: &str| parse_i64(&s.chars().collect::<Vec<char>>());
    assert_eq!(p("-9223372036854775808"), Some(i64::MIN));
    assert_eq!(p("9223372036854775807"), Some(i64::MAX));
    assert_eq!(p("9223372036854775808"), None);
    assert_eq!(p("+0012"), Some(12));
    assert_eq!(p(""), None);
    assert_eq!(p("+"), None);
    assert_eq!(p(" 1"), None);
}

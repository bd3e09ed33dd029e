use goal_bot::competition::{Competition, CompetitionName, Team};
use goal_bot::config::{Config, ConfigError};
use goal_bot::filter::{filter, get_competitions_of_submission};
use goal_bot::reddit_scrape::RedditSubmission;

fn team(min: u32, aliases: &[&str]) -> Team {
    Team::new(min, aliases.iter().map(|a| a.to_string()).collect())
}

fn bundesliga() -> Competition {
    Competition::new(
        CompetitionName::Bundesliga,
        vec![
            team(1, &["hoffenheim", "tsg"]),
            team(1, &["dortmund", "bvb"]),
            team(1, &["heidenheim"]),
            team(2, &["union", "berlin"]),
            team(1, &["bayern", "münchen", "munich"]),
            team(1, &["freiburg"]),
            team(1, &["leipzig"]),
            team(1, &["mainz"]),
        ],
        123,
        123,
    )
}

fn bundesliga_2() -> Competition {
    Competition::new(
        CompetitionName::Bundesliga2,
        vec![team(1, &["hannover"]), team(1, &["braunschweig"])],
        123,
        123,
    )
}

fn champions_league() -> Competition {
    Competition::new(
        CompetitionName::ChampionsLeague,
        vec![team(2, &["real", "madrid"]), team(2, &["manchester", "city"])],
        123,
        123,
    )
}

fn premier_league() -> Competition {
    Competition::new(
        CompetitionName::PremierLeague,
        vec![team(1, &["tottenham", "spurs"]), team(2, &["manchester", "united"])],
        123,
        123,
    )
}

fn internationals() -> Competition {
    Competition::new(
        CompetitionName::Internationals,
        vec![team(1, &["slovakia"]), team(1, &["ukraine"])],
        123,
        123,
    )
}

fn read_competition(name: CompetitionName) -> Competition {
    match name {
        CompetitionName::Bundesliga => bundesliga(),
        CompetitionName::Bundesliga2 => bundesliga_2(),
        CompetitionName::ChampionsLeague => champions_league(),
        CompetitionName::PremierLeague => premier_league(),
        CompetitionName::Internationals => internationals(),
    }
}

fn generate_positive_test_cases(competition: &Competition) -> Vec<String> {
    let mut cases = Vec::new();
    for t in competition.teams.iter() {
        for a in t.aliases.iter() {
            if t.min_matches_needed > 1 {
                let n = t.aliases.len();
                let left = format!("{} {}", t.aliases[0 % n], t.aliases[1 % n]);
                let right = format!("{} {}", t.aliases[2 % n], t.aliases[3 % n]);
                cases.push(format!(
                    "{} 4 - [2] {} - Donyell Malen 90'",
                    left.to_uppercase(),
                    right
                ));
            } else {
                cases.push(format!("{} 4 - [2] {} - Donyell Malen 90'", a.to_uppercase(), a));
            }
        }
    }
    cases
}

#[test]
fn is_valid_post_test() {
    let config = Config::init(read_competition);
    let competitions = vec![
        config.bundesliga,
        config.bundesliga_2,
        config.champions_league,
        config.premier_league,
        config.internationals,
    ];
    for competition in competitions {
        for c in generate_positive_test_cases(&competition) {
            assert!(
                competition.is_valid_post_title_for_competition(&c),
                "\n\n Post falsely NOT identified: {c}\n\n",
            );
        }
    }
}

#[test]
fn test_cl() {
    let champions_league = Config::init(read_competition).champions_league;
    let title = "Real Madrid [1] - 0 Manchester City - Diogo Costa 10' OG";
    assert!(
        champions_league.is_valid_post_title_for_competition(title),
        "\n\n cl post falsely identified: {title}\n\n",
    );
}

#[test]
fn test_bundesliga() {
    let bundesliga = Config::init(read_competition).bundesliga;
    let title = "Hoffenheim 0 - [1] Borussia Dortmund - Niclas Fullkrug 18'";
    assert!(
        bundesliga.is_valid_post_title_for_competition(title),
        "\n\n bundesliga post falsely not identified: {title}\n\n",
    );
}

#[test]
fn test_bundesliga_2() {
    let bundesliga_2 = Config::init(read_competition).bundesliga_2;
    let title = "Hannover [1]-0 Eintracht Braunschweig - Fabian Kunze 12'";
    assert!(
        bundesliga_2.is_valid_post_title_for_competition(title),
        "\n\n bundesliga 2 post falsely not identified: {title}\n\n",
    );
}

#[test]
fn test_bundesliga_heidenheim() {
    let bundesliga = Config::init(read_competition).bundesliga;
    let title = "Heidenheim [1]-0 Union Berlin - Jan-Niklas Beste 60' (Great Freekick)";
    assert!(
        bundesliga.is_valid_post_title_for_competition(title),
        "bundesliga post falsely not identified: {title}\n",
    );
}

#[test]
fn is_not_valid_competition_test() {
    let bundesliga = Config::init(read_competition).bundesliga;
    let positive_cases = vec![
        "Bayyern Munnich 4 - [2] Borussia Dortmund - Donyell Malen 90'",
        "Bayern München 1-[1] Freiiburg - Nicolas Höfler 27' (Great Goal)",
        "RB Leiipzig 0-[3] Mainz - Domink Kohr 67'",
    ];
    for c in positive_cases {
        assert!(
            !bundesliga.is_valid_post_title_for_competition(c),
            "\n\n Bundesliga post falsely identified: {c}\n\n",
        );
    }
}

#[test]
fn team_needs_enough_aliases() {
    let t = team(2, &["manchester", "united"]);
    assert!(t.is_valid_team("Manchester United"));
    assert!(t.is_valid_team("  MANCHESTER\tunited  "));
    assert!(!t.is_valid_team("Manchester City"));
    assert!(!t.is_valid_team(""));
    let zero = team(0, &[]);
    assert!(zero.is_valid_team("anything"));
}

#[test]
fn more_words_keep_a_team_match() {
    let t = team(2, &["manchester", "united"]);
    assert!(t.is_valid_team(&format!("{} {}", "Manchester United", "FC 1-0")));
    let one = team(1, &["dortmund"]);
    assert!(one.is_valid_team("Borussia Dortmund"));
    assert!(one.is_valid_team(&format!("{} {}", "Borussia Dortmund", "II")));
}

#[test]
fn further_title_parts_are_ignored() {
    let cl = champions_league();
    let title = "Real Madrid [1] - 0 Manchester City";
    assert!(cl.is_valid_post_title_for_competition(title));
    assert!(cl.is_valid_post_title_for_competition(&format!("{}-{}", title, " Diogo Costa 10' OG")));
    let other = "Real Madrid [1] - 0 Nowhere";
    assert!(!cl.is_valid_post_title_for_competition(other));
    assert!(!cl.is_valid_post_title_for_competition(&format!("{}-{}", other, "Manchester City")));
}

#[test]
fn title_needs_a_hyphen() {
    let cl = champions_league();
    assert!(!cl.is_valid_post_title_for_competition("Real Madrid 1 0 Manchester City"));
    assert!(!cl.is_valid_post_title_for_competition("Real Madrid [1] - 0 Bayern"));
}

#[test]
fn chat_ids_are_offset() {
    let c = Competition::new(CompetitionName::Bundesliga, Vec::new(), 123, 456);
    assert_eq!(c.get_chat_id(), -1_000_000_000_000 + 123);
    assert_eq!(c.get_chat_id_replies(), -999_999_999_544);
}

#[test]
fn config_keeps_the_order_of_competitions() {
    let config = Config::init(read_competition);
    let names: Vec<CompetitionName> = config.competitions().iter().map(|c| c.name).collect();
    assert_eq!(
        names,
        vec![
            CompetitionName::Bundesliga,
            CompetitionName::Bundesliga2,
            CompetitionName::ChampionsLeague,
            CompetitionName::PremierLeague,
            CompetitionName::Internationals,
        ]
    );
    assert_eq!(config.competition(CompetitionName::PremierLeague).name, CompetitionName::PremierLeague);
}

#[test]
fn chat_ids_are_read_like_integers() {
    let c = bundesliga().with_chat_ids("+42", "-7").unwrap();
    assert_eq!((c.chat_id, c.chat_id_replies), (42, -7));
    assert!(matches!(bundesliga().with_chat_ids("4x2", "1"), Err(ConfigError::InvalidChatId)));
    assert!(matches!(bundesliga().with_chat_ids("1", ""), Err(ConfigError::InvalidRepliesChatId)));
    assert!(matches!(bundesliga().with_chat_ids("-", "1"), Err(ConfigError::InvalidChatId)));
    assert_eq!(CompetitionName::Bundesliga2.chat_id_variable(), "CHAT_ID_BUNDESLIGA_2");
    assert_eq!(CompetitionName::PremierLeague.replies_variable(), "CHAT_ID_PREMIER_LEAGUE_REPLIES");
    assert_eq!(CompetitionName::ChampionsLeague.teams_file(), "champions_league.json");
}

#[test]
fn filter_accepts_a_goal_clip() {
    let b = bundesliga();
    assert!(filter(
        "Hoffenheim 0 - [1] Borussia Dortmund - Niclas Fullkrug 18'",
        "https://streamin.me/v/abc",
        &b
    ));
}

#[test]
fn filter_rejects_youth_and_unknown_hosts() {
    let b = bundesliga();
    let title = "Hoffenheim 0 - [1] Borussia Dortmund - Niclas Fullkrug 18'";
    assert!(!filter(title, "https://example.com/v/abc", &b));
    assert!(!filter("Hoffenheim U19 0 - [1] Borussia Dortmund", "https://streamin.me/v/a", &b));
    assert!(!filter("Hoffenheim 0 - [1] Borussia Dortmund u17", "https://streamin.me/v/a", &b));
    // A youth tag anywhere rules the title out.
    assert!(!filter("Hoffenheim u17 0 - [1] Borussia Dortmund", "https://streamin.me/v/a", &b));
    // Without a lone hyphen word the title is no goal clip.
    assert!(!filter("Hoffenheim 0-[1] Borussia Dortmund", "https://streamin.me/v/a", &b));
    // Women's matches are ignored.
    assert!(!filter("Hoffenheim 0 - [1] Borussia Dortmund w", "https://streamin.me/v/a", &b));
    let c = Competition::new(
        CompetitionName::Bundesliga,
        vec![team(1, &["bayern"]), team(1, &["dortmund"])],
        0,
        0,
    );
    assert!(filter("Bayern - Dortmund", "https://streamin.me/v/abc", &c));
    assert!(!filter("Bayern U17 - Dortmund", "https://streamin.me/v/abc", &c));
    assert!(!filter("Bayern W - Dortmund W", "https://streamin.me/v/abc", &c));
}

#[test]
fn submissions_are_assigned_to_competitions() {
    let config = Config::init(read_competition);
    let submission = RedditSubmission {
        id: "1dl5kig".to_string(),
        url: "https://streamff.co/v/UqV95HVXAk".to_string(),
        title: "Slovakia 1 - [2] Ukraine - Roman Yaremchuk 80'".to_string(),
        created_utc: 0,
    };
    let found = get_competitions_of_submission(&submission, &config);
    assert_eq!(found.len(), 1);
    assert_eq!(found[0].name, CompetitionName::Internationals);
    let other = RedditSubmission { url: "https://nowhere.org/x".to_string(), ..submission };
    assert!(get_competitions_of_submission(&other, &config).is_empty());
}

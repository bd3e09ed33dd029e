//! The bot's configuration: one competition per channel group.
use vstd::prelude::*;

use crate::competition::{Competition, CompetitionName, CompetitionView};
use crate::numbers::{parse_i64, parsed_i64};
use crate::text::chars_of;

verus! {

/// The competitions the bot serves.
pub struct Config {
    pub bundesliga: Competition,
    pub bundesliga_2: Competition,
    pub champions_league: Competition,
    pub premier_league: Competition,
    pub internationals: Competition,
}

impl Config {
    /// The configuration whose competitions `read_competition` gives for each
    /// competition name.
    pub fn init<F: Fn(CompetitionName) -> Competition>(read_competition: F) -> (r: Config)
        requires
            forall|n: CompetitionName| read_competition.requires((n,)),
        ensures
            read_competition.ensures((CompetitionName::Bundesliga,), r.bundesliga),
            read_competition.ensures((CompetitionName::Bundesliga2,), r.bundesliga_2),
            read_competition.ensures((CompetitionName::ChampionsLeague,), r.champions_league),
            read_competition.ensures((CompetitionName::PremierLeague,), r.premier_league),
            read_competition.ensures((CompetitionName::Internationals,), r.internationals),
    {
        Config {
            bundesliga: read_competition(CompetitionName::Bundesliga),
            bundesliga_2: read_competition(CompetitionName::Bundesliga2),
            champions_league: read_competition(CompetitionName::ChampionsLeague),
            premier_league: read_competition(CompetitionName::PremierLeague),
            internationals: read_competition(CompetitionName::Internationals),
        }
    }

    /// The competitions in the order in which the bot goes through them.
    pub open spec fn competition_views(&self) -> Seq<CompetitionView> {
        seq![
            self.bundesliga@,
            self.bundesliga_2@,
            self.champions_league@,
            self.premier_league@,
            self.internationals@,
        ]
    }

    /// Copies of the competitions, in the order in which the bot goes through
    /// them.
    pub fn competitions(&self) -> (r: Vec<Competition>)
        ensures
            r@.map_values(|c: Competition| c@) == self.competition_views(),
    {
        let mut r: Vec<Competition> = Vec::new();
        r.push(self.bundesliga.clone());
        r.push(self.bundesliga_2.clone());
        r.push(self.champions_league.clone());
        r.push(self.premier_league.clone());
        r.push(self.internationals.clone());
        assert(r@.map_values(|c: Competition| c@) =~= self.competition_views());
        r
    }

    /// The competition called `name`, as a value.
    pub open spec fn view_of(&self, name: CompetitionName) -> CompetitionView {
        match name {
            CompetitionName::Bundesliga => self.bundesliga@,
            CompetitionName::Bundesliga2 => self.bundesliga_2@,
            CompetitionName::ChampionsLeague => self.champions_league@,
            CompetitionName::PremierLeague => self.premier_league@,
            CompetitionName::Internationals => self.internationals@,
        }
    }

    /// The competition called `name`.
    pub fn competition(&self, name: CompetitionName) -> (r: &Competition)
        ensures
            r@ == self.view_of(name),
    {
        match name {
            CompetitionName::Bundesliga => &self.bundesliga,
            CompetitionName::Bundesliga2 => &self.bundesliga_2,
            CompetitionName::ChampionsLeague => &self.champions_league,
            CompetitionName::PremierLeague => &self.premier_league,
            CompetitionName::Internationals => &self.internationals,
        }
    }
}

/// Why a competition's chat ids cannot be set.
#[derive(Debug, Clone, Copy, PartialEq, Eq, Structural)]
pub enum ConfigError {
    /// The chat id is not a number.
    InvalidChatId,
    /// The chat id of the replays channel is not a number.
    InvalidRepliesChatId,
}

impl CompetitionName {
    /// The environment variable that holds the competition's chat id.
    pub open spec fn chat_id_variable_name(self) -> Seq<char> {
        match self {
            CompetitionName::Bundesliga => "CHAT_ID_BUNDESLIGA"@,
            CompetitionName::Bundesliga2 => "CHAT_ID_BUNDESLIGA_2"@,
            CompetitionName::PremierLeague => "CHAT_ID_PREMIER_LEAGUE"@,
            CompetitionName::ChampionsLeague => "CHAT_ID_CHAMPIONS_LEAGUE"@,
            CompetitionName::Internationals => "CHAT_ID_INTERNATIONALS"@,
        }
    }

    /// The environment variable that holds the chat id of the competition's
    /// replays channel.
    pub open spec fn replies_variable_name(self) -> Seq<char> {
        match self {
            CompetitionName::Bundesliga => "CHAT_ID_BUNDESLIGA_REPLIES"@,
            CompetitionName::Bundesliga2 => "CHAT_ID_BUNDESLIGA_2_REPLIES"@,
            CompetitionName::PremierLeague => "CHAT_ID_PREMIER_LEAGUE_REPLIES"@,
            CompetitionName::ChampionsLeague => "CHAT_ID_CHAMPIONS_LEAGUE_REPLIES"@,
            CompetitionName::Internationals => "CHAT_ID_INTERNATIONALS_REPLIES"@,
        }
    }

    /// The file that lists the competition's teams.
    pub open spec fn teams_file_name(self) -> Seq<char> {
        match self {
            CompetitionName::Bundesliga => "bundesliga.json"@,
            CompetitionName::Bundesliga2 => "bundesliga_2.json"@,
            CompetitionName::PremierLeague => "premier_league.json"@,
            CompetitionName::ChampionsLeague => "champions_league.json"@,
            CompetitionName::Internationals => "internationals.json"@,
        }
    }

    /// The environment variable that holds the competition's chat id.
    pub fn chat_id_variable(&self) -> (r: String)
        ensures
            r@ == self.chat_id_variable_name(),
    {
        match self {
            CompetitionName::Bundesliga => "CHAT_ID_BUNDESLIGA".to_owned(),
            CompetitionName::Bundesliga2 => "CHAT_ID_BUNDESLIGA_2".to_owned(),
            CompetitionName::PremierLeague => "CHAT_ID_PREMIER_LEAGUE".to_owned(),
            CompetitionName::ChampionsLeague => "CHAT_ID_CHAMPIONS_LEAGUE".to_owned(),
            CompetitionName::Internationals => "CHAT_ID_INTERNATIONALS".to_owned(),
        }
    }

    /// The environment variable that holds the replays channel's chat id.
    pub fn replies_variable(&self) -> (r: String)
        ensures
            r@ == self.replies_variable_name(),
    {
        match self {
            CompetitionName::Bundesliga => "CHAT_ID_BUNDESLIGA_REPLIES".to_owned(),
            CompetitionName::Bundesliga2 => "CHAT_ID_BUNDESLIGA_2_REPLIES".to_owned(),
            CompetitionName::PremierLeague => "CHAT_ID_PREMIER_LEAGUE_REPLIES".to_owned(),
            CompetitionName::ChampionsLeague => "CHAT_ID_CHAMPIONS_LEAGUE_REPLIES".to_owned(),
            CompetitionName::Internationals => "CHAT_ID_INTERNATIONALS_REPLIES".to_owned(),
        }
    }

    /// The file that lists the competition's teams.
    pub fn teams_file(&self) -> (r: String)
        ensures
            r@ == self.teams_file_name(),
    {
        match self {
            CompetitionName::Bundesliga => "bundesliga.json".to_owned(),
            CompetitionName::Bundesliga2 => "bundesliga_2.json".to_owned(),
            CompetitionName::PremierLeague => "premier_league.json".to_owned(),
            CompetitionName::ChampionsLeague => "champions_league.json".to_owned(),
            CompetitionName::Internationals => "internationals.json".to_owned(),
        }
    }
}

impl Competition {
    /// The competition with the chat ids written in `chat_id` and
    /// `chat_id_replies`, each read as `str::parse::<i64>` reads it.
    pub fn with_chat_ids(self, chat_id: &str, chat_id_replies: &str) -> (r: Result<
        Competition,
        ConfigError,
    >)
        ensures
            match (parsed_i64(chat_id@), parsed_i64(chat_id_replies@)) {
                (Some(a), Some(b)) => r matches Ok(c) && c@.teams == self@.teams && c.name
                    == self.name && c.chat_id == a && c.chat_id_replies == b,
                (None, _) => r == Err::<Competition, ConfigError>(ConfigError::InvalidChatId),
                (Some(_), None) => r == Err::<Competition, ConfigError>(
                    ConfigError::InvalidRepliesChatId,
                ),
            },
    {
        let a = chars_of(chat_id);
        let b = chars_of(chat_id_replies);
        let chat = match parse_i64(a.as_slice()) {
            Some(v) => v,
            None => return Err(ConfigError::InvalidChatId),
        };
        let replies = match parse_i64(b.as_slice()) {
            Some(v) => v,
            None => return Err(ConfigError::InvalidRepliesChatId),
        };
        let mut c = self;
        c.chat_id = chat;
        c.chat_id_replies = replies;
        Ok(c)
    }
}

} // verus!

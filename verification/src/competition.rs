//! Competitions, their teams, and whether a post title names a match of one.
use vstd::prelude::*;

use crate::text::{
    ascii_lower_text, ascii_lowercase, is_ascii_text, lemma_split_on_single, lemma_trim_end_at,
    lemma_trim_start_at, lemma_words_single, trim_start, trim_end, lemma_split_on_ascii, lemma_trim_ascii, lemma_words_ascii,
    chars_of, is_whitespace, lemma_split_on_joined, lemma_split_on_len, lemma_words_of_joined,
    lowercase, same_chars, split_on, split_on_char, split_whitespace, to_lowercase_chars,
    trim, trim_chars, views, words,
};

verus! {

/// The competitions whose goals the bot forwards.
#[derive(Debug, Clone, Copy, PartialEq, Eq, Structural)]
pub enum CompetitionName {
    Bundesliga,
    Bundesliga2,
    PremierLeague,
    ChampionsLeague,
    Internationals,
}

/// A team, known by its aliases: a name refers to the team when at least
/// `min_matches_needed` of the aliases occur among the name's words.
pub struct Team {
    pub min_matches_needed: u32,
    pub aliases: Vec<String>,
}

/// A competition with its teams and the ids of its two chat channels.
pub struct Competition {
    pub teams: Vec<Team>,
    pub name: CompetitionName,
    pub chat_id: i64,
    pub chat_id_replies: i64,
}

/// What a team is, as a value: its threshold and its aliases.
pub struct TeamView {
    pub min_matches_needed: u32,
    pub aliases: Seq<Seq<char>>,
}

/// What a competition is, as a value.
pub struct CompetitionView {
    pub teams: Seq<TeamView>,
    pub name: CompetitionName,
    pub chat_id: i64,
    pub chat_id_replies: i64,
}

impl View for Team {
    type V = TeamView;

    open spec fn view(&self) -> TeamView {
        TeamView { min_matches_needed: self.min_matches_needed, aliases: self.aliases.deep_view() }
    }
}

impl View for Competition {
    type V = CompetitionView;

    open spec fn view(&self) -> CompetitionView {
        CompetitionView {
            teams: self.teams@.map_values(|t: Team| t@),
            name: self.name,
            chat_id: self.chat_id,
            chat_id_replies: self.chat_id_replies,
        }
    }
}

impl TeamView {
    /// A name refers to this team: enough aliases occur among its lower-case
    /// words.
    pub open spec fn matches(self, name: Seq<char>) -> bool {
        count_present(self.aliases, lower_words(name)) >= self.min_matches_needed
    }
}

impl TeamView {
    /// A name made of ASCII characters refers to this team: enough aliases
    /// occur among its words in ASCII lower case.
    pub open spec fn matches_ascii(self, name: Seq<char>) -> bool {
        count_present(self.aliases, lower_words_ascii(name)) >= self.min_matches_needed
    }
}

impl CompetitionView {
    /// Some team of the competition is referred to by `name`.
    pub open spec fn has_team_named(self, name: Seq<char>) -> bool {
        exists|i: int| 0 <= i < self.teams.len() && #[trigger] self.teams[i].matches(name)
    }

    /// Some team of the competition is referred to by the ASCII name `name`.
    pub open spec fn has_team_named_ascii(self, name: Seq<char>) -> bool {
        exists|i: int| 0 <= i < self.teams.len() && #[trigger] self.teams[i].matches_ascii(name)
    }

    /// An ASCII post title is one of this competition's matches, read as
    /// `accepts_title` reads it with ASCII lower case.
    pub open spec fn accepts_title_ascii(self, title: Seq<char>) -> bool {
        let items = split_on(title, '-');
        &&& items.len() >= 2
        &&& self.has_team_named_ascii(trim(items[0]))
        &&& self.has_team_named_ascii(trim(items[1]))
    }

    /// A post title is one of this competition's matches: the title has a
    /// hyphen, and the text before the first hyphen and the text between the
    /// first and the second (each trimmed) both refer to teams of it.
    pub open spec fn accepts_title(self, title: Seq<char>) -> bool {
        let items = split_on(title, '-');
        &&& items.len() >= 2
        &&& self.has_team_named(trim(items[0]))
        &&& self.has_team_named(trim(items[1]))
    }
}

/// The lower-case words of `name`: each word of `name` in lower case.
pub open spec fn lower_words(name: Seq<char>) -> Seq<Seq<char>> {
    words(name).map_values(|w: Seq<char>| lowercase(w))
}

/// The words of `name`, each in ASCII lower case.
pub open spec fn lower_words_ascii(name: Seq<char>) -> Seq<Seq<char>> {
    words(name).map_values(|w: Seq<char>| ascii_lower_text(w))
}

/// How many of `aliases`, counted with repetition, occur in `found`.
pub open spec fn count_present(aliases: Seq<Seq<char>>, found: Seq<Seq<char>>) -> nat
    decreases aliases.len(),
{
    if aliases.len() == 0 {
        0
    } else {
        count_present(aliases.drop_last(), found) + if found.contains(aliases.last()) {
            1nat
        } else {
            0nat
        }
    }
}

/// The offset that turns a stored chat id into the id of a Telegram channel.
pub const CHANNEL_ID_OFFSET: i64 = 1_000_000_000_000;

impl Team {
    /// The team with the given aliases and threshold.
    pub fn new(min_matches_needed: u32, aliases: Vec<String>) -> (r: Team)
        ensures
            r.min_matches_needed == min_matches_needed,
            r.aliases@ == aliases@,
    {
        Team { min_matches_needed, aliases }
    }

    /// Whether the name `potential_team_name` refers to this team.
    pub fn is_valid_team(&self, potential_team_name: &str) -> (r: bool)
        ensures
            r == self@.matches(potential_team_name@),
            is_ascii_text(potential_team_name@) ==> r == self@.matches_ascii(potential_team_name@),
    {
        let chars = chars_of(potential_team_name);
        self.matches_name(chars.as_slice())
    }

    /// Whether the name made of `name` refers to this team.
    pub fn matches_name(&self, name: &[char]) -> (r: bool)
        ensures
            r == self@.matches(name@),
            is_ascii_text(name@) ==> lower_words(name@) == lower_words_ascii(name@),
            is_ascii_text(name@) ==> r == self@.matches_ascii(name@),
    {
        let ws = split_whitespace(name);
        let mut lowered: Vec<Vec<char>> = Vec::new();
        for i in 0..ws.len()
            invariant
                views(ws@) == words(name@),
                lowered@.len() == i,
                views(lowered@) == views(ws@).take(i as int).map_values(|w: Seq<char>| lowercase(w)),
                forall|k: int|
                    0 <= k < i && is_ascii_text(views(ws@)[k]) ==> lowercase(#[trigger] views(ws@)[k])
                        == ascii_lower_text(views(ws@)[k]),
        {
            assert(views(ws@)[i as int] == ws@[i as int]@);
            let l = to_lowercase_chars(ws[i].as_slice());
            let ghost before = lowered@;
            lowered.push(l);
            proof {
                let target = views(ws@).take(i + 1).map_values(|w: Seq<char>| lowercase(w));
                assert(views(ws@)[i as int] == ws@[i as int]@);
                assert forall|k: int| 0 <= k < i + 1 implies views(lowered@)[k] == target[k] by {
                    if k < i {
                        assert(lowered@[k] == before[k]);
                        assert(views(before)[k] == before[k]@);
                    }
                }
                assert(views(lowered@) =~= target);
            }
        }
        assert(views(ws@).take(ws@.len() as int) =~= views(ws@));
        let ghost found = views(lowered@);
        assert(found == lower_words(name@));
        proof {
            if is_ascii_text(name@) {
                lemma_words_ascii(name@);
                assert(lower_words(name@) =~= lower_words_ascii(name@)) by {
                    assert forall|k: int| 0 <= k < words(name@).len() implies lower_words(
                        name@,
                    )[k] == lower_words_ascii(name@)[k] by {
                        assert(is_ascii_text(words(name@)[k]));
                        assert(views(ws@)[k] == words(name@)[k]);
                    }
                }
            }
        }
        let mut count: u64 = 0;
        for k in 0..self.aliases.len()
            invariant
                found == views(lowered@),
                count == count_present(self@.aliases.take(k as int), found),
                count <= k,
                k <= self.aliases@.len(),
        {
            let alias = chars_of(self.aliases[k].as_str());
            let present = contains_word(&lowered, alias.as_slice());
            proof {
                let a = self@.aliases;
                assert(a.take(k + 1).drop_last() =~= a.take(k as int));
                assert(a[k as int] == self.aliases@[k as int]@);
            }
            if present {
                count = count + 1;
            }
        }
        assert(self@.aliases.take(self.aliases@.len() as int) =~= self@.aliases);
        count >= self.min_matches_needed as u64
    }
}

/// Whether `w` is one of `found`.
fn contains_word(found: &Vec<Vec<char>>, w: &[char]) -> (r: bool)
    ensures
        r == views(found@).contains(w@),
{
    for i in 0..found.len()
        invariant
            forall|k: int| 0 <= k < i ==> views(found@)[k] != w@,
    {
        if same_chars(found[i].as_slice(), w) {
            assert(views(found@)[i as int] == w@);
            return true;
        }
    }
    proof {
        if views(found@).contains(w@) {
            let k = choose|k: int| 0 <= k < views(found@).len() && views(found@)[k] == w@;
            assert(views(found@)[k] != w@);
        }
    }
    false
}

impl Competition {
    /// The competition `name` with the given teams and chat ids.
    pub fn new(name: CompetitionName, teams: Vec<Team>, chat_id: i64, chat_id_replies: i64) -> (r:
        Competition)
        ensures
            r.name == name,
            r.teams@ == teams@,
            r@.teams == teams@.map_values(|t: Team| t@),
            r.chat_id == chat_id,
            r.chat_id_replies == chat_id_replies,
    {
        Competition { teams, name, chat_id, chat_id_replies }
    }

    /// Whether some team of the competition is referred to by `name`.
    fn has_team_matching(&self, name: &[char]) -> (r: bool)
        ensures
            r == self@.has_team_named(name@),
            is_ascii_text(name@) ==> r == self@.has_team_named_ascii(name@),
    {
        for i in 0..self.teams.len()
            invariant
                forall|k: int| 0 <= k < i ==> !#[trigger] self@.teams[k].matches(name@),
                is_ascii_text(name@) ==> forall|k: int|
                    0 <= k < i ==> !#[trigger] self@.teams[k].matches_ascii(name@),
        {
            assert(self@.teams[i as int] == self.teams@[i as int]@);
            if self.teams[i].matches_name(name) {
                assert(self@.teams[i as int] == self.teams@[i as int]@);
                return true;
            }
        }
        false
    }

    /// Whether the post title names a match between two teams of this
    /// competition.
    pub fn is_valid_post_title_for_competition(&self, potential_team_name: &str) -> (r: bool)
        ensures
            r == self@.accepts_title(potential_team_name@),
            is_ascii_text(potential_team_name@) ==> r == self@.accepts_title_ascii(
                potential_team_name@,
            ),
    {
        let chars = chars_of(potential_team_name);
        let items = split_on_char(chars.as_slice(), '-');
        proof {
            if is_ascii_text(potential_team_name@) {
                lemma_split_on_ascii(potential_team_name@, '-');
                let ps = split_on(potential_team_name@, '-');
                if ps.len() >= 2 {
                    assert(is_ascii_text(ps[0]));
                    assert(is_ascii_text(ps[1]));
                    lemma_trim_ascii(ps[0]);
                    lemma_trim_ascii(ps[1]);
                }
            }
        }
        if items.len() < 2 {
            return false;
        }
        let team1 = trim_chars(items[0].as_slice());
        let team2 = trim_chars(items[1].as_slice());
        assert(views(items@)[0] == items@[0]@);
        assert(views(items@)[1] == items@[1]@);
        self.has_team_matching(team1.as_slice()) && self.has_team_matching(team2.as_slice())
    }

    /// The Telegram id of the competition's channel.
    pub fn get_chat_id(&self) -> (r: i64)
        requires
            self.chat_id >= i64::MIN + CHANNEL_ID_OFFSET,
        ensures
            r == self.chat_id - CHANNEL_ID_OFFSET,
    {
        -CHANNEL_ID_OFFSET + self.chat_id
    }

    /// The Telegram id of the competition's channel for replays.
    pub fn get_chat_id_replies(&self) -> (r: i64)
        requires
            self.chat_id_replies >= i64::MIN + CHANNEL_ID_OFFSET,
        ensures
            r == self.chat_id_replies - CHANNEL_ID_OFFSET,
    {
        -CHANNEL_ID_OFFSET + self.chat_id_replies
    }
}

impl Clone for Team {
    /// A copy of the team.
    fn clone(&self) -> (r: Self)
        ensures
            r@ == self@,
    {
        Team { min_matches_needed: self.min_matches_needed, aliases: self.aliases.clone() }
    }
}

impl Clone for Competition {
    /// A copy of the competition.
    fn clone(&self) -> (r: Self)
        ensures
            r@ == self@,
    {
        let teams = self.teams.clone();
        proof {
            assert(teams@.map_values(|t: Team| t@) =~= self.teams@.map_values(|t: Team| t@));
        }
        Competition {
            teams,
            name: self.name,
            chat_id: self.chat_id,
            chat_id_replies: self.chat_id_replies,
        }
    }
}


/// Aliases found among some words are still found among more words.
proof fn lemma_count_present_grows(aliases: Seq<Seq<char>>, found: Seq<Seq<char>>, more: Seq<Seq<char>>)
    ensures
        count_present(aliases, found) <= count_present(aliases, found + more),
    decreases aliases.len(),
{
    if aliases.len() > 0 {
        lemma_count_present_grows(aliases.drop_last(), found, more);
        if found.contains(aliases.last()) {
            let k = choose|k: int| 0 <= k < found.len() && found[k] == aliases.last();
            assert((found + more)[k] == aliases.last());
        }
    }
}

/// Adding words to a name never turns a match with a team into a
/// non-match: the words of `name`, a whitespace character and `extra` hold
/// every word of `name`.
pub proof fn lemma_more_words_keep_match(team: TeamView, name: Seq<char>, ws: char, extra: Seq<char>)
    requires
        is_whitespace(ws),
        team.matches(name),
    ensures
        team.matches(name + seq![ws] + extra),
{
    lemma_words_of_joined(name, ws, extra);
    let f = |w: Seq<char>| lowercase(w);
    assert(lower_words(name + seq![ws] + extra) =~= lower_words(name) + words(extra).map_values(f));
    lemma_count_present_grows(team.aliases, lower_words(name), words(extra).map_values(f));
}

/// Only the first two hyphen-separated parts of a title count: appending a
/// further part to a title that already holds a hyphen leaves the verdict
/// unchanged.
pub proof fn lemma_further_parts_ignored(competition: CompetitionView, title: Seq<char>, suffix: Seq<char>)
    requires
        title.contains('-'),
    ensures
        competition.accepts_title(title + seq!['-'] + suffix) == competition.accepts_title(title),
{
    lemma_split_on_joined(title, '-', suffix);
    lemma_split_on_len(title, '-');
    let items = split_on(title, '-');
    let longer = split_on(title + seq!['-'] + suffix, '-');
    assert(longer[0] == items[0]);
    assert(longer[1] == items[1]);
}


/// A lower-case ASCII letter or a digit.
pub open spec fn is_lower_alphanumeric(c: char) -> bool {
    ('a' <= c && c <= 'z') || ('0' <= c && c <= '9')
}

/// The ASCII upper case of a character: `a` to `z` become `A` to `Z`, and
/// every other character stays.
pub open spec fn ascii_uppercase(c: char) -> char {
    if 'a' <= c && c <= 'z' {
        ((c as int) - 32) as char
    } else {
        c
    }
}

/// An alias present among some words counts at least once.
proof fn lemma_count_present_found(aliases: Seq<Seq<char>>, found: Seq<Seq<char>>, a: Seq<char>)
    requires
        aliases.contains(a),
        found.contains(a),
    ensures
        count_present(aliases, found) >= 1,
    decreases aliases.len(),
{
    if aliases.last() != a {
        let k = choose|k: int| 0 <= k < aliases.len() && aliases[k] == a;
        assert(aliases.drop_last()[k] == a);
        lemma_count_present_found(aliases.drop_last(), found, a);
    }
}

/// A title that names an alias of a team needing at most one alias, in
/// upper case before the hyphen and as it is after it, in the form
/// `"ALIAS 4 - [2] alias - Donyell Malen 90'"`, is one of the competition's
/// matches (for an alias of lower-case ASCII letters and digits).
pub proof fn lemma_alias_titles_accepted(competition: CompetitionView, t: int, alias: Seq<char>)
    requires
        0 <= t < competition.teams.len(),
        competition.teams[t].min_matches_needed <= 1,
        competition.teams[t].aliases.contains(alias),
        alias.len() > 0,
        forall|i: int| 0 <= i < alias.len() ==> is_lower_alphanumeric(#[trigger] alias[i]),
    ensures
        is_ascii_text(
            alias.map_values(|c: char| ascii_uppercase(c)) + " 4 - [2] "@ + alias
                + " - Donyell Malen 90'"@,
        ),
        competition.accepts_title_ascii(
            alias.map_values(|c: char| ascii_uppercase(c)) + " 4 - [2] "@ + alias
                + " - Donyell Malen 90'"@,
        ),
{
    reveal_strlit(" 4 - [2] ");
    reveal_strlit(" - Donyell Malen 90'");
    let up = alias.map_values(|c: char| ascii_uppercase(c));
    let title = up + " 4 - [2] "@ + alias + " - Donyell Malen 90'"@;
    let team = competition.teams[t];
    assert(forall|i: int| 0 <= i < up.len() ==> ('A' <= #[trigger] up[i] && up[i] <= 'Z') || ('0'
        <= up[i] && up[i] <= '9'));
    assert(ascii_lower_text(up) =~= alias);
    assert(ascii_lower_text(alias) =~= alias);
    assert(is_ascii_text(title)) by {
        assert forall|i: int| 0 <= i < title.len() implies (#[trigger] title[i] as int) < 128 by {
            if i < up.len() {
                assert(title[i] == up[i]);
            } else if i < up.len() + 9 {
                assert(title[i] == " 4 - [2] "@[i - up.len()]);
            } else if i < up.len() + 9 + alias.len() {
                assert(title[i] == alias[i - up.len() - 9]);
            } else {
                assert(title[i] == " - Donyell Malen 90'"@[i - up.len() - 9 - alias.len()]);
            }
        }
    }
    // The title is `left - middle - tail`.
    let left = up + seq![' ', '4', ' '];
    let middle = seq![' ', '[', '2', ']', ' '] + alias + seq![' '];
    let tail = " Donyell Malen 90'"@;
    reveal_strlit(" Donyell Malen 90'");
    assert(" 4 - [2] "@ =~= seq![' ', '4', ' ', '-', ' ', '[', '2', ']', ' ']);
    assert(" - Donyell Malen 90'"@ =~= seq![' ', '-'] + tail);
    assert(title =~= left + seq!['-'] + (middle + seq!['-'] + tail));
    assert(!left.contains('-')) by {
        if left.contains('-') {
            let k = choose|k: int| 0 <= k < left.len() && left[k] == '-';
            if k < up.len() {
                assert(left[k] == up[k]);
            }
        }
    }
    assert(!middle.contains('-')) by {
        if middle.contains('-') {
            let k = choose|k: int| 0 <= k < middle.len() && middle[k] == '-';
            if 5 <= k < 5 + alias.len() {
                assert(middle[k] == alias[k - 5]);
            }
        }
    }
    lemma_split_on_joined(left, '-', middle + seq!['-'] + tail);
    lemma_split_on_joined(middle, '-', tail);
    lemma_split_on_single(left, '-');
    lemma_split_on_single(middle, '-');
    lemma_split_on_len(tail, '-');
    let items = split_on(title, '-');
    assert(items[0] == left);
    assert(items[1] == middle);
    // The first part, trimmed, is `ALIAS 4`.
    lemma_trim_start_at(left, 0);
    assert(left.skip(0) =~= left);
    lemma_trim_end_at(left, left.len() - 1);
    let first = up + seq![' ', '4'];
    assert(left.take(left.len() - 1) =~= first);
    assert(trim(left) == first);
    assert(first =~= up + seq![' '] + seq!['4']);
    lemma_words_of_joined(up, ' ', seq!['4']);
    assert forall|i: int| 0 <= i < up.len() implies !is_whitespace(#[trigger] up[i]) by {}
    lemma_words_single(up);
    lemma_words_single(seq!['4']);
    assert(lower_words_ascii(first)[0] == alias);
    assert(lower_words_ascii(first).contains(alias));
    lemma_count_present_found(team.aliases, lower_words_ascii(first), alias);
    assert(competition.teams[t].matches_ascii(first));
    // The second part, trimmed, is `[2] alias`.
    lemma_trim_start_at(middle, 1);
    let m1 = middle.skip(1);
    lemma_trim_end_at(m1, m1.len() - 1);
    let second = seq!['[', '2', ']'] + seq![' '] + alias;
    assert(m1.take(m1.len() - 1) =~= second);
    assert(trim(middle) == second);
    lemma_words_of_joined(seq!['[', '2', ']'], ' ', alias);
    lemma_words_single(seq!['[', '2', ']']);
    assert forall|i: int| 0 <= i < alias.len() implies !is_whitespace(#[trigger] alias[i]) by {}
    lemma_words_single(alias);
    assert(lower_words_ascii(second)[1] == alias);
    assert(lower_words_ascii(second).contains(alias));
    lemma_count_present_found(team.aliases, lower_words_ascii(second), alias);
    assert(competition.teams[t].matches_ascii(second));
}

} // verus!

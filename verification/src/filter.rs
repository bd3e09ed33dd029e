//! Which submissions are goal clips of a competition.
use vstd::prelude::*;

use crate::competition::{Competition, CompetitionView};
use crate::config::Config;
use crate::reddit_scrape::RedditSubmission;
use crate::text::{
    ascii_lower_text, chars_of, contains, contains_chars, is_ascii_text, lowercase, same_chars,
    split_whitespace,
    to_lowercase_chars, views, words,
};
use crate::videohost::{ascii_host_of, host_of, VideoHost};

verus! {

/// A word that marks a youth match (under 7 to under 21).
pub open spec fn is_youth_tag(w: Seq<char>) -> bool {
    ||| w == "u7"@
    ||| w == "u8"@
    ||| w == "u9"@
    ||| w == "u10"@
    ||| w == "u11"@
    ||| w == "u12"@
    ||| w == "u13"@
    ||| w == "u14"@
    ||| w == "u15"@
    ||| w == "u16"@
    ||| w == "u17"@
    ||| w == "u18"@
    ||| w == "u19"@
    ||| w == "u20"@
    ||| w == "u21"@
}

/// A submission with this title, hosted at `host`, is a goal clip of the
/// competition: its lower-case words hold a lone hyphen, none of them is a
/// youth tag (under 7 to under 21) or a lone `w` (a women's match), its
/// lower-case text holds neither `u19` nor `u21`, the host is a known video
/// host, and the title names two teams of the competition.
pub open spec fn passes_filter(title: Seq<char>, host: Seq<char>, competition: CompetitionView) -> bool {
    let lower = lowercase(title);
    let ws = words(lower);
    &&& ws.contains("-"@)
    &&& !contains(lower, "u19"@)
    &&& !contains(lower, "u21"@)
    &&& forall|i: int| 0 <= i < ws.len() ==> !is_youth_tag(#[trigger] ws[i])
    &&& !ws.contains("w"@)
    &&& host_of(host) is Some
    &&& competition.accepts_title(title)
}

/// `passes_filter` for a title and a host made of ASCII characters, with
/// ASCII lower case in place of the full lower-case mapping.
pub open spec fn passes_filter_ascii(title: Seq<char>, host: Seq<char>, competition: CompetitionView) -> bool {
    let lower = ascii_lower_text(title);
    let ws = words(lower);
    &&& ws.contains("-"@)
    &&& !contains(lower, "u19"@)
    &&& !contains(lower, "u21"@)
    &&& forall|i: int| 0 <= i < ws.len() ==> !is_youth_tag(#[trigger] ws[i])
    &&& !ws.contains("w"@)
    &&& ascii_host_of(host) is Some
    &&& competition.accepts_title_ascii(title)
}

/// Whether `w` spells `name`.
fn spells(w: &[char], name: &str) -> (r: bool)
    ensures
        r == (w@ == name@),
{
    let n = chars_of(name);
    same_chars(w, n.as_slice())
}

/// Whether the word `w` marks a youth match.
fn is_youth_word(w: &[char]) -> (r: bool)
    ensures
        r == is_youth_tag(w@),
{
    spells(w, "u7") || spells(w, "u8") || spells(w, "u9") || spells(w, "u10") || spells(w, "u11")
        || spells(w, "u12") || spells(w, "u13") || spells(w, "u14") || spells(w, "u15") || spells(
        w,
        "u16",
    ) || spells(w, "u17") || spells(w, "u18") || spells(w, "u19") || spells(w, "u20") || spells(
        w,
        "u21",
    )
}

/// Whether a submission titled `title` and hosted at `host` is a goal clip of
/// `competition`.
pub fn filter(title: &str, host: &str, competition: &Competition) -> (r: bool)
    ensures
        r == passes_filter(title@, host@, competition@),
        is_ascii_text(title@) && is_ascii_text(host@) ==> r == passes_filter_ascii(
            title@,
            host@,
            competition@,
        ),
{
    let title_chars = chars_of(title);
    let lower_title = to_lowercase_chars(title_chars.as_slice());
    let title_split = split_whitespace(lower_title.as_slice());
    let ghost ws = words(lower_title@);
    // Titles of goal clips read "team1 [1] - [0] team2", so a lone hyphen
    // has to be among the words.
    let mut found = false;
    for i in 0..title_split.len()
        invariant
            views(title_split@) == ws,
            found <==> exists|j: int| 0 <= j < i && ws[j] == "-"@,
    {
        assert(views(title_split@)[i as int] == title_split@[i as int]@);
        if spells(title_split[i].as_slice(), "-") {
            found = true;
        }
    }
    if !found {
        assert(!ws.contains("-"@));
        return false;
    }
    // Youth matches are no goal clips of the competition.
    let u19 = chars_of("u19");
    let u21 = chars_of("u21");
    if contains_chars(lower_title.as_slice(), u19.as_slice()) || contains_chars(
        lower_title.as_slice(),
        u21.as_slice(),
    ) {
        return false;
    }
    for i in 0..title_split.len()
        invariant
            views(title_split@) == ws,
            lower_title@ == lowercase(title@),
            is_ascii_text(title@) ==> lower_title@ == ascii_lower_text(title@),
            ws == words(lower_title@),
            forall|j: int| 0 <= j < i ==> !is_youth_tag(#[trigger] ws[j]),
    {
        assert(views(title_split@)[i as int] == title_split@[i as int]@);
        if is_youth_word(title_split[i].as_slice()) {
            assert(is_youth_tag(ws[i as int]));
            return false;
        }
    }
    // Nor are women's matches.
    for i in 0..title_split.len()
        invariant
            views(title_split@) == ws,
            lower_title@ == lowercase(title@),
            is_ascii_text(title@) ==> lower_title@ == ascii_lower_text(title@),
            ws == words(lower_title@),
            forall|j: int| 0 <= j < i ==> ws[j] != "w"@,
    {
        assert(views(title_split@)[i as int] == title_split@[i as int]@);
        if spells(title_split[i].as_slice(), "w") {
            assert(ws[i as int] == "w"@);
            return false;
        }
    }
    assert(!ws.contains("w"@));
    if VideoHost::from_str(host).is_err() {
        return false;
    }
    if !competition.is_valid_post_title_for_competition(title) {
        return false;
    }
    true
}

/// Copies of the competitions of `config` for which the submission is a goal
/// clip, in the order in which the bot goes through them.
pub fn get_competitions_of_submission(submission: &RedditSubmission, config: &Config) -> (r: Vec<
    Competition,
>)
    ensures
        r@.map_values(|c: Competition| c@) == config.competition_views().filter(
            |c: CompetitionView| passes_filter(submission.title@, submission.url@, c),
        ),
{
    let all = config.competitions();
    let ghost cs = config.competition_views();
    let ghost keep = |c: CompetitionView| passes_filter(submission.title@, submission.url@, c);
    let mut r: Vec<Competition> = Vec::new();
    for i in 0..all.len()
        invariant
            all@.map_values(|c: Competition| c@) == cs,
            keep == (|c: CompetitionView| passes_filter(submission.title@, submission.url@, c)),
            r@.map_values(|c: Competition| c@) == cs.take(i as int).filter(keep),
    {
        reveal_with_fuel(Seq::<_>::filter, 1);
        assert(cs.take(i + 1).drop_last() =~= cs.take(i as int));
        assert(cs[i as int] == all@[i as int]@);
        if filter(submission.title.as_str(), submission.url.as_str(), &all[i]) {
            let ghost before = r@;
            r.push(all[i].clone());
            assert(r@.map_values(|c: Competition| c@) =~= before.map_values(|c: Competition| c@).push(cs[i as int]));
        }
    }
    assert(cs.take(all@.len() as int) =~= cs);
    r
}

/// A title that mentions an under-19 or under-21 match is no goal clip.
pub proof fn lemma_filter_rejects_u19_u21(title: Seq<char>, host: Seq<char>, competition: CompetitionView)
    requires
        contains(lowercase(title), "u19"@) || contains(lowercase(title), "u21"@),
    ensures
        !passes_filter(title, host, competition),
{
}

/// A youth tag anywhere among the title's words rules the title out.
pub proof fn lemma_filter_rejects_youth_tag(
    title: Seq<char>,
    host: Seq<char>,
    competition: CompetitionView,
    tag: int,
)
    requires
        0 <= tag < words(lowercase(title)).len(),
        is_youth_tag(words(lowercase(title))[tag]),
    ensures
        !passes_filter(title, host, competition),
{
}

/// A women's match, a title with a lone `w` among its words, is no goal clip.
pub proof fn lemma_filter_rejects_women(
    title: Seq<char>,
    host: Seq<char>,
    competition: CompetitionView,
    w: int,
)
    requires
        0 <= w < words(lowercase(title)).len(),
        words(lowercase(title))[w] == "w"@,
    ensures
        !passes_filter(title, host, competition),
{
    assert(words(lowercase(title)).contains("w"@));
}

/// A goal clip's title holds a lone hyphen between the two teams.
pub proof fn lemma_filter_needs_hyphen(title: Seq<char>, host: Seq<char>, competition: CompetitionView)
    requires
        passes_filter(title, host, competition),
    ensures
        words(lowercase(title)).contains("-"@),
{
}

/// Only clips on a known video host pass.
pub proof fn lemma_filter_needs_known_host(title: Seq<char>, host: Seq<char>, competition: CompetitionView)
    requires
        passes_filter(title, host, competition),
    ensures
        host_of(host) is Some,
        competition.accepts_title(title),
{
}

/// Every competition a submission is assigned to accepts it.
pub proof fn lemma_assigned_competitions_accept(
    title: Seq<char>,
    host: Seq<char>,
    competitions: Seq<CompetitionView>,
    k: int,
)
    requires
        0 <= k < competitions.filter(|c: CompetitionView| passes_filter(title, host, c)).len(),
    ensures
        passes_filter(title, host, competitions.filter(|c: CompetitionView| passes_filter(title, host, c))[k]),
        competitions.filter(|c: CompetitionView| passes_filter(title, host, c))[k].accepts_title(title),
{
    competitions.lemma_filter_pred(|c: CompetitionView| passes_filter(title, host, c), k);
}


/// A title naming an under-7 to under-21 match among its lower-case words
/// is no goal clip: each of `u7`, `u8`, ..., `u21` rules it out.
pub proof fn lemma_filter_rejects_each_youth_age(title: Seq<char>, host: Seq<char>, competition: CompetitionView)
    ensures
        words(lowercase(title)).contains("u7"@) ==> !passes_filter(title, host, competition),
        words(lowercase(title)).contains("u8"@) ==> !passes_filter(title, host, competition),
        words(lowercase(title)).contains("u9"@) ==> !passes_filter(title, host, competition),
        words(lowercase(title)).contains("u10"@) ==> !passes_filter(title, host, competition),
        words(lowercase(title)).contains("u11"@) ==> !passes_filter(title, host, competition),
        words(lowercase(title)).contains("u12"@) ==> !passes_filter(title, host, competition),
        words(lowercase(title)).contains("u13"@) ==> !passes_filter(title, host, competition),
        words(lowercase(title)).contains("u14"@) ==> !passes_filter(title, host, competition),
        words(lowercase(title)).contains("u15"@) ==> !passes_filter(title, host, competition),
        words(lowercase(title)).contains("u16"@) ==> !passes_filter(title, host, competition),
        words(lowercase(title)).contains("u17"@) ==> !passes_filter(title, host, competition),
        words(lowercase(title)).contains("u18"@) ==> !passes_filter(title, host, competition),
        words(lowercase(title)).contains("u19"@) ==> !passes_filter(title, host, competition),
        words(lowercase(title)).contains("u20"@) ==> !passes_filter(title, host, competition),
        words(lowercase(title)).contains("u21"@) ==> !passes_filter(title, host, competition),
{
    let ws = words(lowercase(title));
    assert forall|t: Seq<char>| ws.contains(t) && is_youth_tag(t) implies !passes_filter(
        title,
        host,
        competition,
    ) by {
        let k = choose|k: int| 0 <= k < ws.len() && ws[k] == t;
        assert(is_youth_tag(ws[k]));
    }
}

} // verus!

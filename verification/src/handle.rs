//! The bot's state between submissions: which goals were posted, which
//! replays were forwarded, and when the Reddit token was issued; and the
//! decisions taken on it.
use vstd::prelude::*;

use crate::comments::{
    collects_replays, contains_url, flatten_comment_with_replies, flattened, is_aa_comment,
    mentions_url, pointed, regex_match, Comment,
};
use crate::competition::{Competition, CompetitionName};
use crate::config::Config;
use crate::reddit_scrape::RedditSubmission;
use crate::text::{chars_of, concat_chars, contains, same_chars};

use chrono::{Local, Timelike, Utc};

verus! {

/// A goal that was posted, whose replays are forwarded as replies.
pub struct GoalSubmission {
    pub submission_id: String,
    pub competition: CompetitionName,
    /// The comments already forwarded.
    pub sent_comment_ids: Vec<String>,
    /// The message that replays answer.
    pub reply_id: i32,
    /// When the goal was posted: nanoseconds since local midnight.
    pub added_time_of_day: u64,
}

/// A posted goal as a value.
pub struct GoalSubmissionView {
    pub submission_id: Seq<char>,
    pub competition: CompetitionName,
    pub sent_comment_ids: Seq<Seq<char>>,
    pub reply_id: i32,
    pub added_time_of_day: u64,
}

impl View for GoalSubmission {
    type V = GoalSubmissionView;

    open spec fn view(&self) -> GoalSubmissionView {
        GoalSubmissionView {
            submission_id: self.submission_id@,
            competition: self.competition,
            sent_comment_ids: self.sent_comment_ids.deep_view(),
            reply_id: self.reply_id,
            added_time_of_day: self.added_time_of_day,
        }
    }
}

impl Clone for GoalSubmission {
    /// A copy of the posted goal.
    fn clone(&self) -> (r: Self)
        ensures
            r@ == self@,
    {
        GoalSubmission {
            submission_id: self.submission_id.clone(),
            competition: self.competition,
            sent_comment_ids: self.sent_comment_ids.clone(),
            reply_id: self.reply_id,
            added_time_of_day: self.added_time_of_day,
        }
    }
}

/// The state the bot keeps while it listens.
pub struct RedditHandleState {
    pub config: Config,
    pub listen_for_replays_submission_ids: Vec<GoalSubmission>,
    /// When the Reddit token was issued: nanoseconds since the Unix epoch.
    pub token_created_at: i128,
}

/// Nanoseconds in a second, and in an hour.
pub open spec fn nanos_per_second() -> int {
    1_000_000_000
}

pub open spec fn nanos_per_hour() -> int {
    3_600_000_000_000
}

/// A moment given as whole seconds since the Unix epoch and the
/// nanoseconds past that second, in nanoseconds since the epoch.
pub open spec fn moment_nanos(seconds: i64, nanos: u32) -> int {
    seconds * nanos_per_second() + nanos
}

/// The whole seconds that have passed from `created` to `now` (none where
/// `now` is not later).
pub open spec fn elapsed_seconds(created: int, now: int) -> int {
    let d = now - created;
    if d > 0 {
        d / nanos_per_second()
    } else {
        0
    }
}

/// A token issued at `created` has less than an hour of its 24 hours left
/// at `now`.
pub open spec fn token_needs_refresh(created: int, now: int) -> bool {
    let validity = 86_400int;
    let elapsed = elapsed_seconds(created, now);
    let remaining = if elapsed >= validity {
        0
    } else {
        validity - elapsed
    };
    remaining < 3_600
}

/// A time of day given as whole seconds since midnight and the nanoseconds
/// past that second, in nanoseconds since midnight.
pub open spec fn time_of_day(seconds: u32, nanos: u32) -> int {
    seconds * nanos_per_second() + nanos
}

/// The whole hours in a span of `d` nanoseconds, truncated toward zero.
pub open spec fn whole_hours(d: int) -> int {
    if d >= 0 {
        d / nanos_per_hour()
    } else {
        -((-d) / nanos_per_hour())
    }
}

/// A goal posted at time of day `added` is still watched for replays at
/// time of day `now`: the whole hours from `now` to `added`, truncated
/// toward zero, are at most one. Only times of day are compared, so a goal
/// posted earlier on the same day always stays.
pub open spec fn still_watched(added: u64, now: u64) -> bool {
    whole_hours(added - now) <= 1
}

/// The comments of a submission, each comment tree read out in order.
pub open spec fn flattened_all(cs: Seq<Comment>) -> Seq<Comment>
    decreases cs.len(),
{
    if cs.len() == 0 {
        seq![]
    } else {
        flattened_all(cs.drop_last()) + flattened(cs.last())
    }
}

/// The index of the first comment that collects replays, if any.
pub open spec fn first_collecting(fl: Seq<Comment>) -> Option<int> {
    if exists|i: int| is_first_collecting(fl, i) {
        Some(choose|i: int| is_first_collecting(fl, i))
    } else {
        None
    }
}

/// The comment at `i` collects replays and none before it does.
pub open spec fn is_first_collecting(fl: Seq<Comment>, i: int) -> bool {
    &&& 0 <= i < fl.len()
    &&& collects_replays(fl[i])
    &&& forall|j: int| 0 <= j < i ==> !collects_replays(#[trigger] fl[j])
}

/// A comment is a replay offered under the comment `parent_key`: it answers
/// it, and its HTML body holds a web address.
pub open spec fn offers_replay(c: Comment, parent_key: Seq<char>) -> bool {
    &&& c.parent_id matches Some(p) && p@ == parent_key
    &&& c.body_html matches Some(h) && mentions_url(h@)
}

/// The replays offered under `parent_key`, in order.
pub open spec fn offered_replays(fl: Seq<Comment>, parent_key: Seq<char>) -> Seq<Comment> {
    fl.filter(|c: Comment| offers_replay(c, parent_key))
}

/// The ids of the comments.
pub open spec fn comment_ids(cs: Seq<Comment>) -> Seq<Seq<char>> {
    cs.map_values(|c: Comment| c.id.unwrap()@)
}

/// The ids of `ids` that are not yet among `sent` nor earlier in `ids`.
pub open spec fn fresh_ids(sent: Seq<Seq<char>>, ids: Seq<Seq<char>>) -> Seq<Seq<char>>
    decreases ids.len(),
{
    if ids.len() == 0 {
        seq![]
    } else {
        let earlier = fresh_ids(sent, ids.drop_last());
        if (sent + ids.drop_last()).contains(ids.last()) {
            earlier
        } else {
            earlier.push(ids.last())
        }
    }
}

/// The key by which replies name the comment with id `id` as their parent.
pub open spec fn parent_key(id: Seq<char>) -> Seq<char> {
    "t1_"@ + id
}

/// The index of the first watched goal of the submission, if any.
pub open spec fn goal_index(goals: Seq<GoalSubmissionView>, submission_id: Seq<char>) -> Option<int> {
    if exists|i: int| is_first_goal(goals, submission_id, i) {
        Some(choose|i: int| is_first_goal(goals, submission_id, i))
    } else {
        None
    }
}

/// The goal at `i` is of the submission and none before it is.
pub open spec fn is_first_goal(goals: Seq<GoalSubmissionView>, submission_id: Seq<char>, i: int) -> bool {
    &&& 0 <= i < goals.len()
    &&& goals[i].submission_id == submission_id
    &&& forall|j: int| 0 <= j < i ==> (#[trigger] goals[j]).submission_id != submission_id
}

/// What happens to a goal once a posting step is done with.
pub enum PostingEvent {
    /// A competition's turn for the submission begins.
    Start,
    /// The clip's address was read from its page.
    Scraped(String),
    /// Its address could not be read.
    ScrapeFailed,
    /// The clip was saved to the file at this path.
    Downloaded(String),
    /// It could not be saved.
    DownloadFailed,
    /// The clip saved at this path was sent.
    VideoSent(String),
    /// The clip could not be sent.
    VideoFailed,
}

/// What the bot does next for a submission and a competition.
pub enum PostingAction {
    /// Nothing: the goal was posted to this competition already.
    Skip,
    /// Read the clip's address from the page at this address.
    Scrape(String),
    /// Save the clip at this address.
    Download(String),
    /// Send the clip saved at this path.
    SendVideo(String),
    /// Delete the file at this path, then watch the goal for replays.
    DeleteFileThenRegister(String),
    /// Send the link to the submission, then watch the goal for replays.
    SendLinkThenRegister,
}

/// The current moment in UTC: whole seconds since the Unix epoch and the
/// nanoseconds past that second.
///
/// Trusted: calls `chrono::Utc::now` and reads `DateTime::timestamp` and
/// `DateTime::timestamp_subsec_nanos`. The moment depends on the clock, so
/// the contract says only what chrono documents of every moment: the
/// nanoseconds stay below two seconds (a leap second counts past the
/// first).
#[verifier::external_body]
fn utc_now() -> (r: (i64, u32))
    ensures
        r.1 < 2_000_000_000,
{
    let now = Utc::now();
    (now.timestamp(), now.timestamp_subsec_nanos())
}

/// The current local time of day: whole seconds since midnight and the
/// nanoseconds past that second.
///
/// Trusted: calls `chrono::Local::now`, takes its `time()` and reads
/// `Timelike::num_seconds_from_midnight` and `Timelike::nanosecond`. The
/// time depends on the clock and the time zone, so the contract says only
/// what chrono documents of every time of day: fewer seconds than a day
/// has, and nanoseconds below two seconds (a leap second counts past the
/// first).
#[verifier::external_body]
fn local_time_of_day() -> (r: (u32, u32))
    ensures
        r.0 < 86_400,
        r.1 < 2_000_000_000,
{
    let time = Local::now().time();
    (time.num_seconds_from_midnight(), time.nanosecond())
}

/// The moment, in nanoseconds since the Unix epoch.
pub fn moment(seconds: i64, nanos: u32) -> (r: i128)
    ensures
        r == moment_nanos(seconds, nanos),
{
    seconds as i128 * 1_000_000_000 + nanos as i128
}

/// The time of day, in nanoseconds since midnight.
pub fn nanos_of_day(seconds: u32, nanos: u32) -> (r: u64)
    ensures
        r == time_of_day(seconds, nanos),
{
    seconds as u64 * 1_000_000_000 + nanos as u64
}

/// The current moment, in nanoseconds since the Unix epoch.
pub fn now_nanos() -> (r: i128)
    ensures
        exists|seconds: i64, nanos: u32| nanos < 2_000_000_000 && r == moment_nanos(seconds, nanos),
{
    let (seconds, nanos) = utc_now();
    moment(seconds, nanos)
}

/// The current local time of day, in nanoseconds since midnight.
pub fn time_of_day_nanos() -> (r: u64)
    ensures
        exists|seconds: u32, nanos: u32|
            seconds < 86_400 && nanos < 2_000_000_000 && r == time_of_day(seconds, nanos),
{
    let (seconds, nanos) = local_time_of_day();
    nanos_of_day(seconds, nanos)
}

impl RedditHandleState {
    /// The state of a bot whose token was just issued: nothing posted yet.
    pub fn new(config: Config) -> (r: RedditHandleState)
        ensures
            r.config == config,
            r.goals().len() == 0,
            exists|seconds: i64, nanos: u32|
                nanos < 2_000_000_000 && r.token_created_at == moment_nanos(seconds, nanos),
    {
        let now = now_nanos();
        RedditHandleState::issued_at(config, now)
    }

    /// The state of a bot whose token was issued at `token_created_at`
    /// (nanoseconds since the Unix epoch): nothing posted yet.
    pub fn issued_at(config: Config, token_created_at: i128) -> (r: RedditHandleState)
        ensures
            r.config == config,
            r.goals().len() == 0,
            r.token_created_at == token_created_at,
    {
        RedditHandleState {
            config,
            listen_for_replays_submission_ids: Vec::new(),
            token_created_at,
        }
    }

    /// The watched goals, as values.
    pub open spec fn goals(&self) -> Seq<GoalSubmissionView> {
        self.listen_for_replays_submission_ids@.map_values(|g: GoalSubmission| g@)
    }

    /// The goal was posted to the competition already.
    pub open spec fn posted(&self, submission_id: Seq<char>, competition: CompetitionName) -> bool {
        exists|i: int|
            0 <= i < self.goals().len() && (#[trigger] self.goals()[i]).submission_id
                == submission_id && self.goals()[i].competition == competition
    }

    /// Whether the token has less than an hour of its validity left now.
    pub fn should_refresh_token(&self) -> (r: bool)
        ensures
            exists|seconds: i64, nanos: u32|
                nanos < 2_000_000_000 && r == token_needs_refresh(
                    self.token_created_at as int,
                    moment_nanos(seconds, nanos),
                ),
    {
        let now = now_nanos();
        self.needs_refresh_at(now)
    }

    /// Whether the token has less than an hour of its validity left at `now`
    /// (nanoseconds since the Unix epoch).
    pub fn needs_refresh_at(&self, now: i128) -> (r: bool)
        ensures
            r == token_needs_refresh(self.token_created_at as int, now as int),
    {
        let elapsed: i128 = match now.checked_sub(self.token_created_at) {
            Some(d) => if d > 0 {
                d / 1_000_000_000
            } else {
                0
            },
            // The difference lies beyond `i128`: many days either way.
            None => if now > self.token_created_at {
                86_400
            } else {
                0
            },
        };
        let remaining: i128 = if elapsed >= 86_400 {
            0
        } else {
            86_400 - elapsed
        };
        remaining < 3_600
    }

    /// Records that a new token was issued now.
    pub fn token_refreshed(&mut self)
        ensures
            exists|seconds: i64, nanos: u32|
                nanos < 2_000_000_000 && final(self).token_created_at == moment_nanos(seconds, nanos),
            final(self).goals() == old(self).goals(),
            final(self).config == old(self).config,
    {
        let now = now_nanos();
        self.token_refreshed_at(now);
    }

    /// Records that a new token was issued at `now`.
    pub fn token_refreshed_at(&mut self, now: i128)
        ensures
            final(self).token_created_at == now,
            final(self).goals() == old(self).goals(),
            final(self).config == old(self).config,
    {
        self.token_created_at = now;
    }

    /// Whether the submission was posted to the competition already.
    pub fn check_if_submission_was_already_posted(
        &self,
        competition: &Competition,
        submission: &RedditSubmission,
    ) -> (r: bool)
        ensures
            r == self.posted(submission.id@, competition.name),
    {
        let id = chars_of(submission.id.as_str());
        for i in 0..self.listen_for_replays_submission_ids.len()
            invariant
                id@ == submission.id@,
                forall|k: int|
                    0 <= k < i ==> !((#[trigger] self.goals()[k]).submission_id == submission.id@
                        && self.goals()[k].competition == competition.name),
        {
            let g = &self.listen_for_replays_submission_ids[i];
            assert(self.goals()[i as int] == g@);
            let gid = chars_of(g.submission_id.as_str());
            if same_chars(gid.as_slice(), id.as_slice()) && g.competition == competition.name {
                return true;
            }
        }
        false
    }

    /// Watches the goal, posted to the competition now as the message
    /// `reply_id`, for replays.
    pub fn register_message_for_replays(
        &mut self,
        competition: &Competition,
        submission: &RedditSubmission,
        reply_id: i32,
    )
        ensures
            exists|seconds: u32, nanos: u32|
                seconds < 86_400 && nanos < 2_000_000_000 && final(self).goals() == old(
                    self,
                ).goals().push(
                    GoalSubmissionView {
                        submission_id: submission.id@,
                        competition: competition.name,
                        sent_comment_ids: Seq::empty(),
                        reply_id,
                        added_time_of_day: time_of_day(seconds, nanos) as u64,
                    },
                ),
            final(self).config == old(self).config,
            final(self).token_created_at == old(self).token_created_at,
    {
        let now = time_of_day_nanos();
        self.register_message_for_replays_at(competition, submission, reply_id, now);
    }

    /// Watches the goal, posted to the competition at time of day
    /// `added_time_of_day` as the message `reply_id`, for replays.
    pub fn register_message_for_replays_at(
        &mut self,
        competition: &Competition,
        submission: &RedditSubmission,
        reply_id: i32,
        added_time_of_day: u64,
    )
        ensures
            final(self).goals() == old(self).goals().push(
                GoalSubmissionView {
                    submission_id: submission.id@,
                    competition: competition.name,
                    sent_comment_ids: Seq::empty(),
                    reply_id,
                    added_time_of_day,
                },
            ),
            final(self).config == old(self).config,
            final(self).token_created_at == old(self).token_created_at,
    {
        let g = GoalSubmission {
            submission_id: submission.id.clone(),
            competition: competition.name,
            sent_comment_ids: Vec::new(),
            reply_id,
            added_time_of_day,
        };
        let ghost before = self.listen_for_replays_submission_ids@;
        self.listen_for_replays_submission_ids.push(g);
        assert(g@.sent_comment_ids =~= Seq::<Seq<char>>::empty());
        assert(self.goals() =~= before.map_values(|g: GoalSubmission| g@).push(g@));
    }

    /// Stops watching the goals whose time of day of posting lies two or
    /// more whole hours after the current time of day (see `still_watched`;
    /// goals posted earlier on the same day stay), keeping the order of the
    /// rest.
    pub fn drop_stale_submissions(&mut self)
        ensures
            exists|seconds: u32, nanos: u32|
                #![trigger time_of_day(seconds, nanos)]
                seconds < 86_400 && nanos < 2_000_000_000 && final(self).goals() == old(
                    self,
                ).goals().filter(
                    |g: GoalSubmissionView|
                        still_watched(g.added_time_of_day, time_of_day(seconds, nanos) as u64),
                ),
            final(self).config == old(self).config,
            final(self).token_created_at == old(self).token_created_at,
    {
        let now = time_of_day_nanos();
        self.drop_stale_submissions_at(now);
    }

    /// Stops watching the goals whose time of day of posting lies two or
    /// more whole hours after `now` (a time of day, in nanoseconds since
    /// midnight; see `still_watched`), keeping the order of the rest.
    pub fn drop_stale_submissions_at(&mut self, now: u64)
        ensures
            final(self).goals() == old(self).goals().filter(
                |g: GoalSubmissionView| still_watched(g.added_time_of_day, now),
            ),
            final(self).config == old(self).config,
            final(self).token_created_at == old(self).token_created_at,
    {
        let ghost all = self.goals();
        let ghost keep = |g: GoalSubmissionView| still_watched(g.added_time_of_day, now);
        let mut kept: Vec<GoalSubmission> = Vec::new();
        for i in 0..self.listen_for_replays_submission_ids.len()
            invariant
                all == self.goals(),
                keep == (|g: GoalSubmissionView| still_watched(g.added_time_of_day, now)),
                kept@.map_values(|g: GoalSubmission| g@) == all.take(i as int).filter(keep),
        {
            reveal_with_fuel(Seq::<_>::filter, 1);
            assert(all.take(i + 1).drop_last() =~= all.take(i as int));
            let g = &self.listen_for_replays_submission_ids[i];
            assert(all[i as int] == g@);
            // Whole hours from now to the time of posting, truncated toward
            // zero, at most one.
            let stays = if g.added_time_of_day >= now {
                (g.added_time_of_day - now) / 3_600_000_000_000 <= 1
            } else {
                true
            };
            proof {
                let d = g.added_time_of_day - now;
                if d < 0 {
                    assert(-d >= 0);
                    assert((-d) / nanos_per_hour() >= 0) by (nonlinear_arith)
                        requires
                            -d >= 0,
                    ;
                }
            }
            if stays {
                let ghost before = kept@.map_values(|g: GoalSubmission| g@);
                kept.push(g.clone());
                assert(kept@.map_values(|g: GoalSubmission| g@) =~= before.push(all[i as int]));
            }
        }
        assert(all.take(all.len() as int) =~= all);
        self.listen_for_replays_submission_ids = kept;
    }

    /// What to do next for the submission and the competition after
    /// `event`: a goal already posted to the competition is skipped; else the
    /// clip is scraped, saved and sent, with the link sent in its place where
    /// a step fails; every goal that is not skipped ends watched for replays.
    pub fn next_posting_action(
        &self,
        competition: &Competition,
        submission: &RedditSubmission,
        event: PostingEvent,
    ) -> (r: PostingAction)
        ensures
            match event {
                PostingEvent::Start => if self.posted(submission.id@, competition.name) {
                    r == PostingAction::Skip
                } else {
                    r matches PostingAction::Scrape(u) && u@ == submission.url@
                },
                PostingEvent::Scraped(u) => r == PostingAction::Download(u),
                PostingEvent::ScrapeFailed => r == PostingAction::SendLinkThenRegister,
                PostingEvent::Downloaded(p) => r == PostingAction::SendVideo(p),
                PostingEvent::DownloadFailed => r == PostingAction::SendLinkThenRegister,
                PostingEvent::VideoSent(p) => r == PostingAction::DeleteFileThenRegister(p),
                PostingEvent::VideoFailed => r == PostingAction::SendLinkThenRegister,
            },
    {
        match event {
            PostingEvent::Start => {
                if self.check_if_submission_was_already_posted(competition, submission) {
                    PostingAction::Skip
                } else {
                    PostingAction::Scrape(submission.url.clone())
                }
            },
            PostingEvent::Scraped(u) => PostingAction::Download(u),
            PostingEvent::ScrapeFailed => PostingAction::SendLinkThenRegister,
            PostingEvent::Downloaded(p) => PostingAction::SendVideo(p),
            PostingEvent::DownloadFailed => PostingAction::SendLinkThenRegister,
            PostingEvent::VideoSent(p) => PostingAction::DeleteFileThenRegister(p),
            PostingEvent::VideoFailed => PostingAction::SendLinkThenRegister,
        }
    }
}

/// The comment trees read out, one after the other.
fn flatten_all(comments: &Vec<Comment>) -> (r: Vec<&Comment>)
    ensures
        pointed(r@) == flattened_all(comments@),
{
    let mut r: Vec<&Comment> = Vec::new();
    for i in 0..comments.len()
        invariant
            pointed(r@) == flattened_all(comments@.take(i as int)),
    {
        let mut below = flatten_comment_with_replies(&comments[i]);
        let ghost before = pointed(r@);
        let ghost below_view = pointed(below@);
        r.append(&mut below);
        assert(comments@.take(i + 1).drop_last() =~= comments@.take(i as int));
        assert(pointed(r@) =~= before + below_view);
    }
    assert(comments@.take(comments@.len() as int) =~= comments@);
    r
}

/// Whether `id` is among `ids`.
fn has_id(ids: &Vec<String>, id: &[char]) -> (r: bool)
    ensures
        r == ids.deep_view().contains(id@),
{
    for i in 0..ids.len()
        invariant
            forall|k: int| 0 <= k < i ==> ids.deep_view()[k] != id@,
    {
        let c = chars_of(ids[i].as_str());
        assert(ids.deep_view()[i as int] == ids@[i as int]@);
        if same_chars(c.as_slice(), id) {
            return true;
        }
    }
    proof {
        if ids.deep_view().contains(id@) {
            let k = choose|k: int| 0 <= k < ids.deep_view().len() && ids.deep_view()[k] == id@;
            assert(ids.deep_view()[k] != id@);
        }
    }
    false
}

impl RedditHandleState {
    /// Reading the replays of the submission from its comments does not
    /// abort: once a comment collecting replays is found, it has an id, every
    /// comment names its parent, and where replays are offered the goal is
    /// watched and each offered replay has an id.
    pub open spec fn replay_selection_completes(&self, submission_id: Seq<char>, comments: Seq<Comment>) -> bool {
        let fl = flattened_all(comments);
        match first_collecting(fl) {
            None => true,
            Some(a) => {
                let key = parent_key(fl[a].id.unwrap()@);
                &&& fl[a].id is Some
                &&& forall|k: int| 0 <= k < fl.len() ==> (#[trigger] fl[k]).parent_id is Some
                &&& forall|k: int|
                    0 <= k < fl.len() && offers_replay(#[trigger] fl[k], key) ==> fl[k].id is Some
                &&& (exists|k: int| 0 <= k < fl.len() && offers_replay(#[trigger] fl[k], key))
                    ==> goal_index(self.goals(), submission_id) is Some
            },
        }
    }

    /// The replays to forward for the submission, and the watched goals
    /// after: `None` where no comment collects replays; else the ids of the
    /// replies to the first such comment that hold a web address and were not
    /// forwarded yet, in order, with all of those replies' ids added to the
    /// goal's forwarded comments.
    pub open spec fn replay_selection(&self, submission_id: Seq<char>, comments: Seq<Comment>) -> (
        Option<Seq<Seq<char>>>,
        Seq<GoalSubmissionView>,
    ) {
        let fl = flattened_all(comments);
        match first_collecting(fl) {
            None => (None, self.goals()),
            Some(a) => {
                let offered = offered_replays(fl, parent_key(fl[a].id.unwrap()@));
                let ids = comment_ids(offered);
                if offered.len() == 0 {
                    (Some(seq![]), self.goals())
                } else {
                    let gi = goal_index(self.goals(), submission_id).unwrap();
                    let g = self.goals()[gi];
                    (
                        Some(fresh_ids(g.sent_comment_ids, ids)),
                        self.goals().update(
                            gi,
                            GoalSubmissionView {
                                sent_comment_ids: g.sent_comment_ids + ids,
                                ..g
                            },
                        ),
                    )
                }
            },
        }
    }

    /// Whether the watched goal at `gi` is that of the submission `sid`.
    fn goal_is(&self, gi: usize, sid: &[char]) -> (r: bool)
        requires
            gi < self.goals().len(),
        ensures
            r == (self.goals()[gi as int].submission_id == sid@),
    {
        let gid = chars_of(self.listen_for_replays_submission_ids[gi].submission_id.as_str());
        assert(self.goals()[gi as int] == self.listen_for_replays_submission_ids@[gi as int]@);
        same_chars(gid.as_slice(), sid)
    }

    /// The replays to forward for the submission with id `submission_id`,
    /// read from its top-level `comments`; `None` (with nothing changed)
    /// where reading them aborts.
    #[verifier::spinoff_prover]
    #[verifier::rlimit(40)]
    pub fn checked_select_replay_comments(&mut self, submission_id: &str, comments: &Vec<Comment>) -> (r:
        Option<Option<Vec<String>>>)
        ensures
            r is None <==> !old(self).replay_selection_completes(submission_id@, comments@),
            r is None ==> final(self).goals() == old(self).goals(),
            r matches Some(sel) ==> (sel.deep_view(), final(self).goals()) == old(self).replay_selection(
                submission_id@,
                comments@,
            ),
            final(self).config == old(self).config,
            final(self).token_created_at == old(self).token_created_at,
    {
        let ghost goals0 = self.goals();
        let fl = flatten_all(comments);
        let ghost fls = pointed(fl@);
        // The first comment that collects replays.
        let mut a: usize = 0;
        while a < fl.len() && !is_aa_comment(fl[a])
            invariant
                fls == pointed(fl@),
                a <= fl@.len(),
                forall|j: int| 0 <= j < a ==> !collects_replays(#[trigger] fls[j]),
            decreases fl@.len() - a,
        {
            a = a + 1;
        }
        if a == fl.len() {
            assert(first_collecting(fls) is None) by {
                if exists|i: int| is_first_collecting(fls, i) {
                    let i = choose|i: int| is_first_collecting(fls, i);
                    assert(!collects_replays(fls[i]));
                }
            }
            return Some(None);
        }
        proof {
            assert(is_first_collecting(fls, a as int));
            let c = choose|i: int| is_first_collecting(fls, i);
            if c < a {
                assert(!collects_replays(fls[c]));
            } else if c > a {
                assert(!collects_replays(fls[a as int]));
            }
            assert(first_collecting(fls) == Some(a as int));
        }
        let aa_id = match &fl[a].id {
            None => return None,
            Some(id) => chars_of(id.as_str()),
        };
        let prefix = chars_of("t1_");
        let key = concat_chars(prefix.as_slice(), aa_id.as_slice());
        let ghost keyv = parent_key(aa_id@);
        assert(fls == flattened_all(comments@));
        let ghost pred = |c: Comment| offers_replay(c, keyv);
        // The offered replays, by id.
        let mut ids: Vec<String> = Vec::new();
        let mut k: usize = 0;
        while k < fl.len()
            invariant
                fls == pointed(fl@),
                fls == flattened_all(comments@),
                first_collecting(fls) == Some(a as int),
                fls[a as int].id is Some,
                keyv == parent_key(fls[a as int].id.unwrap()@),
                k <= fl@.len(),
                key@ == keyv,
                pred == (|c: Comment| offers_replay(c, keyv)),
                forall|j: int| 0 <= j < k ==> (#[trigger] fls[j]).parent_id is Some,
                forall|j: int| 0 <= j < k && offers_replay(#[trigger] fls[j], keyv) ==> fls[j].id is Some,
                ids@.len() > 0 <==> exists|j: int| 0 <= j < k && offers_replay(#[trigger] fls[j], keyv),
                ids.deep_view() == comment_ids(fls.take(k as int).filter(pred)),
            decreases fl@.len() - k,
        {
            reveal_with_fuel(Seq::<_>::filter, 1);
            let c: &Comment = fl[k];
            assert(fls[k as int] == *c);
            assert(fls.take(k + 1).drop_last() =~= fls.take(k as int));
            let parent = match &c.parent_id {
                None => {
                    return None;
                },
                Some(p) => chars_of(p.as_str()),
            };
            let offered = if same_chars(parent.as_slice(), key.as_slice()) {
                match &c.body_html {
                    None => false,
                    Some(h) => contains_url(h.as_str()),
                }
            } else {
                false
            };
            assert(offered == pred(*c));
            if offered {
                match &c.id {
                    None => {
                        return None;
                    },
                    Some(id) => {
                        let ghost before = ids.deep_view();
                        ids.push(id.clone());
                        assert(ids.deep_view() =~= before.push(id@));
                        assert(fls.take(k + 1).filter(pred) == fls.take(k as int).filter(pred).push(*c));
                        assert(comment_ids(fls.take(k + 1).filter(pred)) =~= before.push(id@));
                    },
                }
            }
            k = k + 1;
        }
        assert(fls.take(fls.len() as int) =~= fls);
        let ghost offered_all = fls.filter(pred);
        assert(ids.deep_view() == comment_ids(offered_all));
        if ids.len() == 0 {
            return Some(Some(ids));
        }
        // The watched goal of the submission.
        let sid = chars_of(submission_id);
        let mut gi: usize = 0;
        while gi < self.listen_for_replays_submission_ids.len() && !self.goal_is(gi, sid.as_slice())
            invariant
                goals0 == self.goals(),
                sid@ == submission_id@,
                gi <= goals0.len(),
                forall|j: int| 0 <= j < gi ==> (#[trigger] goals0[j]).submission_id != submission_id@,
            decreases goals0.len() - gi,
        {
            gi = gi + 1;
        }
        if gi == self.listen_for_replays_submission_ids.len() {
            proof {
                if exists|i: int| is_first_goal(goals0, submission_id@, i) {
                    let i = choose|i: int| is_first_goal(goals0, submission_id@, i);
                    assert(goals0[i].submission_id != submission_id@);
                }
            }
            return None;
        }
        proof {
            assert(goals0[gi as int].submission_id == submission_id@);
            assert(is_first_goal(goals0, submission_id@, gi as int));
            let c = choose|i: int| is_first_goal(goals0, submission_id@, i);
            if c < gi {
                assert(goals0[c].submission_id != submission_id@);
            } else if c > gi {
                assert(goals0[gi as int].submission_id != submission_id@);
            }
            assert(goal_index(goals0, submission_id@) == Some(gi as int));
        }
        // The replays not forwarded yet.
        let g = self.listen_for_replays_submission_ids[gi].clone();
        let ghost gv = g@;
        let mut sent: Vec<String> = g.sent_comment_ids.clone();
        let mut selected: Vec<String> = Vec::new();
        let ghost idv = ids.deep_view();
        for j in 0..ids.len()
            invariant
                idv == ids.deep_view(),
                gv == g@,
                sent.deep_view() == gv.sent_comment_ids + idv.take(j as int),
                selected.deep_view() == fresh_ids(gv.sent_comment_ids, idv.take(j as int)),
        {
            let id = chars_of(ids[j].as_str());
            assert(idv[j as int] == ids@[j as int]@);
            assert(idv.take(j + 1).drop_last() =~= idv.take(j as int));
            if !has_id(&sent, id.as_slice()) {
                let ghost before = selected.deep_view();
                selected.push(ids[j].clone());
                assert(selected.deep_view() =~= before.push(idv[j as int]));
            }
            let ghost before_sent = sent.deep_view();
            sent.push(ids[j].clone());
            assert(sent.deep_view() =~= before_sent.push(idv[j as int]));
            assert(gv.sent_comment_ids + idv.take(j + 1) =~= (gv.sent_comment_ids + idv.take(j as int)).push(idv[j as int]));
        }
        assert(idv.take(idv.len() as int) =~= idv);
        let updated = GoalSubmission {
            submission_id: g.submission_id,
            competition: g.competition,
            sent_comment_ids: sent,
            reply_id: g.reply_id,
            added_time_of_day: g.added_time_of_day,
        };
        let ghost before_list = self.listen_for_replays_submission_ids@;
        self.listen_for_replays_submission_ids.set(gi, updated);
        assert(self.goals() =~= goals0.update(
            gi as int,
            GoalSubmissionView { sent_comment_ids: gv.sent_comment_ids + idv, ..gv },
        ));
        Some(Some(selected))
    }

    /// The replays to forward for the submission with id `submission_id`,
    /// read from its top-level `comments`, with the goal's forwarded comments
    /// updated.
    pub fn select_replay_comments(&mut self, submission_id: &str, comments: &Vec<Comment>) -> (r:
        Option<Vec<String>>)
        requires
            old(self).replay_selection_completes(submission_id@, comments@),
        ensures
            (r.deep_view(), final(self).goals()) == old(self).replay_selection(
                submission_id@,
                comments@,
            ),
            final(self).config == old(self).config,
            final(self).token_created_at == old(self).token_created_at,
    {
        match self.checked_select_replay_comments(submission_id, comments) {
            Some(r) => r,
            None => {
                assert(false);
                None
            },
        }
    }
}

// ---------------------------------------------------------------------------
// Laws
/// A goal that was registered counts as posted to its competition, and
/// every goal posted before still counts as posted.
pub proof fn lemma_registered_goal_is_posted(
    before: RedditHandleState,
    after: RedditHandleState,
    goal: GoalSubmissionView,
)
    requires
        after.goals() == before.goals().push(goal),
    ensures
        after.posted(goal.submission_id, goal.competition),
        forall|id: Seq<char>, c: CompetitionName| before.posted(id, c) ==> after.posted(id, c),
{
    let n = before.goals().len() as int;
    assert(after.goals()[n] == goal);
    assert forall|id: Seq<char>, c: CompetitionName| before.posted(id, c) implies after.posted(
        id,
        c,
    ) by {
        let i = choose|i: int|
            0 <= i < before.goals().len() && (#[trigger] before.goals()[i]).submission_id == id
                && before.goals()[i].competition == c;
        assert(after.goals()[i] == before.goals()[i]);
    }
}

/// Filtering a sequence twice by the same test gives what filtering it once
/// gave.
proof fn lemma_filter_twice<A>(s: Seq<A>, p: spec_fn(A) -> bool)
    ensures
        s.filter(p).filter(p) == s.filter(p),
    decreases s.len(),
{
    if s.len() == 0 {
        reveal(Seq::filter);
    } else {
        let init = s.drop_last();
        let x = s.last();
        lemma_filter_twice(init, p);
        assert(init.push(x) =~= s);
        init.lemma_filter_push(x, p);
        if p(x) {
            init.filter(p).lemma_filter_push(x, p);
        }
    }
}

/// Dropping the stale goals a second time at the same moment drops nothing
/// more.
pub proof fn lemma_drop_stale_is_idempotent(
    before: RedditHandleState,
    once: RedditHandleState,
    twice: RedditHandleState,
    now: u64,
)
    requires
        once.goals() == before.goals().filter(
            |g: GoalSubmissionView| still_watched(g.added_time_of_day, now),
        ),
        twice.goals() == once.goals().filter(
            |g: GoalSubmissionView| still_watched(g.added_time_of_day, now),
        ),
    ensures
        twice.goals() == once.goals(),
{
    lemma_filter_twice(before.goals(), |g: GoalSubmissionView| still_watched(g.added_time_of_day, now));
}

/// A token issued at `now` needs no refresh at `now`.
pub proof fn lemma_fresh_token_needs_no_refresh(now: int)
    ensures
        !token_needs_refresh(now, now),
{
}

/// Once a token needs a refresh it keeps needing one as time goes on.
pub proof fn lemma_refresh_need_persists(created: int, now: int, later: int)
    requires
        now <= later,
        token_needs_refresh(created, now),
    ensures
        token_needs_refresh(created, later),
{
    let d1 = now - created;
    let d2 = later - created;
    if d1 > 0 {
        assert(d1 / nanos_per_second() <= d2 / nanos_per_second()) by (nonlinear_arith)
            requires
                0 < d1 <= d2,
        ;
    }
}

/// The fresh ids are none of the ids sent before, and each comes once.
pub proof fn lemma_fresh_ids_are_new(sent: Seq<Seq<char>>, ids: Seq<Seq<char>>)
    ensures
        forall|k: int| 0 <= k < fresh_ids(sent, ids).len() ==> !sent.contains(
            #[trigger] fresh_ids(sent, ids)[k],
        ),
        fresh_ids(sent, ids).no_duplicates(),
        forall|k: int| 0 <= k < fresh_ids(sent, ids).len() ==> ids.contains(
            #[trigger] fresh_ids(sent, ids)[k],
        ),
    decreases ids.len(),
{
    if ids.len() > 0 {
        let rest = ids.drop_last();
        lemma_fresh_ids_are_new(sent, rest);
        let f = fresh_ids(sent, rest);
        if !(sent + rest).contains(ids.last()) {
            assert forall|k: int| 0 <= k < f.len() implies f[k] != ids.last() by {
                assert(rest.contains(f[k]));
                let j = choose|j: int| 0 <= j < rest.len() && rest[j] == f[k];
                assert((sent + rest)[sent.len() + j] == rest[j]);
            }
            assert(!sent.contains(ids.last())) by {
                if sent.contains(ids.last()) {
                    let j = choose|j: int| 0 <= j < sent.len() && sent[j] == ids.last();
                    assert((sent + rest)[j] == sent[j]);
                }
            }
            let g = f.push(ids.last());
            assert forall|k: int| 0 <= k < g.len() implies ids.contains(#[trigger] g[k]) by {
                if k < f.len() {
                    let j = choose|j: int| 0 <= j < rest.len() && rest[j] == f[k];
                    assert(ids[j] == rest[j]);
                } else {
                    assert(ids[ids.len() - 1] == g[k]);
                }
            }
        } else {
            assert forall|k: int| 0 <= k < f.len() implies ids.contains(#[trigger] f[k]) by {
                let j = choose|j: int| 0 <= j < rest.len() && rest[j] == f[k];
                assert(ids[j] == rest[j]);
            }
        }
    }
}

/// Every id of `ids` that was not sent before is forwarded: nothing fresh
/// is left out.
pub proof fn lemma_fresh_ids_complete(sent: Seq<Seq<char>>, ids: Seq<Seq<char>>, x: Seq<char>)
    requires
        ids.contains(x),
        !sent.contains(x),
    ensures
        fresh_ids(sent, ids).contains(x),
    decreases ids.len(),
{
    let rest = ids.drop_last();
    let f = fresh_ids(sent, rest);
    if rest.contains(x) {
        lemma_fresh_ids_complete(sent, rest, x);
        let k = choose|k: int| 0 <= k < f.len() && f[k] == x;
        if !(sent + rest).contains(ids.last()) {
            assert(f.push(ids.last())[k] == x);
        }
    } else {
        let k = choose|k: int| 0 <= k < ids.len() && ids[k] == x;
        if k < ids.len() - 1 {
            assert(rest[k] == x);
        }
        assert(ids.last() == x);
        assert(!(sent + rest).contains(x)) by {
            if (sent + rest).contains(x) {
                let j = choose|j: int| 0 <= j < (sent + rest).len() && (sent + rest)[j] == x;
                if j < sent.len() {
                    assert(sent[j] == x);
                } else {
                    assert(rest[j - sent.len()] == x);
                }
            }
        }
        assert(f.push(x)[f.len() as int] == x);
    }
}

/// Where the offered ids are distinct, the forwarded ones are exactly those
/// not sent before, in the order in which they were offered.
pub proof fn lemma_fresh_ids_keep_order(sent: Seq<Seq<char>>, ids: Seq<Seq<char>>)
    requires
        ids.no_duplicates(),
    ensures
        fresh_ids(sent, ids) == ids.filter(|x: Seq<char>| !sent.contains(x)),
    decreases ids.len(),
{
    let keep = |x: Seq<char>| !sent.contains(x);
    if ids.len() == 0 {
        reveal(Seq::filter);
    } else {
        let rest = ids.drop_last();
        let x = ids.last();
        assert(rest.no_duplicates()) by {
            assert forall|i: int, j: int| 0 <= i < rest.len() && 0 <= j < rest.len() && i != j implies rest[i]
                != rest[j] by {
                assert(rest[i] == ids[i] && rest[j] == ids[j]);
            }
        }
        lemma_fresh_ids_keep_order(sent, rest);
        assert(rest.push(x) =~= ids);
        rest.lemma_filter_push(x, keep);
        assert(!rest.contains(x)) by {
            if rest.contains(x) {
                let j = choose|j: int| 0 <= j < rest.len() && rest[j] == x;
                assert(ids[j] == ids[ids.len() - 1]);
            }
        }
        assert((sent + rest).contains(x) == sent.contains(x)) by {
            if (sent + rest).contains(x) {
                let j = choose|j: int| 0 <= j < (sent + rest).len() && (sent + rest)[j] == x;
                if j >= sent.len() {
                    assert(rest[j - sent.len()] == x);
                } else {
                    assert(sent[j] == x);
                }
            }
            if sent.contains(x) {
                let j = choose|j: int| 0 <= j < sent.len() && sent[j] == x;
                assert((sent + rest)[j] == x);
            }
        }
    }
}

/// The selection of replays is complete: where the comment at `a` is the
/// first whose body holds "Mirrors / Alternative Angles", every reply to it
/// (its parent id is `t1_` and the comment's id) whose HTML body holds a web
/// address, and whose id the submission's first goal has not forwarded yet,
/// is selected.
pub proof fn lemma_replay_selection_complete(
    st: RedditHandleState,
    submission_id: Seq<char>,
    comments: Seq<Comment>,
    a: int,
    k: int,
    g: int,
)
    requires
        st.replay_selection_completes(submission_id, comments),
        0 <= a < flattened_all(comments).len(),
        flattened_all(comments)[a].body matches Some(b) && contains(
            b@,
            "Mirrors / Alternative Angles"@,
        ),
        forall|j: int|
            0 <= j < a ==> !(#[trigger] flattened_all(comments)[j].body matches Some(b) && contains(
                b@,
                "Mirrors / Alternative Angles"@,
            )),
        0 <= k < flattened_all(comments).len(),
        flattened_all(comments)[k].parent_id matches Some(p) && p@ == "t1_"@
            + flattened_all(comments)[a].id.unwrap()@,
        flattened_all(comments)[k].body_html matches Some(h) && regex_match(
            "(www\\.)?[-a-zA-Z0-9@:%._\\+~#=]{2,256}\\.[a-z]{2,4}\\b([-a-zA-Z0-9@:%_\\+.~#?&//=]*)"@,
            h@,
        ) == Some(true),
        0 <= g < st.goals().len(),
        st.goals()[g].submission_id == submission_id,
        forall|j: int| 0 <= j < g ==> (#[trigger] st.goals()[j]).submission_id != submission_id,
        !st.goals()[g].sent_comment_ids.contains(flattened_all(comments)[k].id.unwrap()@),
    ensures
        st.replay_selection(submission_id, comments).0 matches Some(sel) && sel.contains(
            flattened_all(comments)[k].id.unwrap()@,
        ),
{
    let fl = flattened_all(comments);
    assert(is_first_collecting(fl, a));
    let i = choose|i: int| is_first_collecting(fl, i);
    if i < a {
        assert(collects_replays(fl[i]));
    } else if i > a {
        assert(!collects_replays(fl[a]));
    }
    assert(first_collecting(fl) == Some(a));
    let key = parent_key(fl[a].id.unwrap()@);
    assert(offers_replay(fl[k], key));
    let pred = |c: Comment| offers_replay(c, key);
    let offered = offered_replays(fl, key);
    fl.lemma_filter_contains(pred, k);
    let j = choose|j: int| 0 <= j < offered.len() && offered[j] == fl[k];
    let ids = comment_ids(offered);
    assert(ids[j] == fl[k].id.unwrap()@);
    assert(offered.len() > 0);
    assert(is_first_goal(st.goals(), submission_id, g));
    let gi = choose|i: int| is_first_goal(st.goals(), submission_id, i);
    if gi < g {
        assert(st.goals()[gi].submission_id != submission_id);
    } else if gi > g {
        assert(st.goals()[g].submission_id != submission_id);
    }
    assert(goal_index(st.goals(), submission_id) == Some(g));
    lemma_fresh_ids_complete(st.goals()[g].sent_comment_ids, ids, fl[k].id.unwrap()@);
}

/// Ids that were all sent before give nothing fresh.
proof fn lemma_fresh_ids_of_sent(sent: Seq<Seq<char>>, ids: Seq<Seq<char>>)
    requires
        forall|k: int| 0 <= k < ids.len() ==> sent.contains(#[trigger] ids[k]),
    ensures
        fresh_ids(sent, ids) == Seq::<Seq<char>>::empty(),
    decreases ids.len(),
{
    if ids.len() > 0 {
        let rest = ids.drop_last();
        assert forall|k: int| 0 <= k < rest.len() implies sent.contains(#[trigger] rest[k]) by {
            assert(rest[k] == ids[k]);
        }
        lemma_fresh_ids_of_sent(sent, rest);
        assert(sent.contains(ids[ids.len() - 1]));
        let j = choose|j: int| 0 <= j < sent.len() && sent[j] == ids.last();
        assert((sent + rest)[j] == sent[j]);
    }
}

/// A replay is offered only by a comment that offers it.
proof fn lemma_offered_exists(fl: Seq<Comment>, key: Seq<char>)
    requires
        offered_replays(fl, key).len() > 0,
    ensures
        exists|k: int| 0 <= k < fl.len() && offers_replay(#[trigger] fl[k], key),
{
    let pred = |c: Comment| offers_replay(c, key);
    let o = fl.filter(pred);
    assert(o == offered_replays(fl, key));
    fl.lemma_filter_pred(pred, 0);
    assert(o.contains(o[0]));
    fl.lemma_filter_contains_rev(pred, o[0]);
    let k = choose|k: int| 0 <= k < fl.len() && fl[k] == o[0];
    assert(offers_replay(fl[k], key));
}

/// Updating the found goal with one of the same submission keeps it the one
/// found.
proof fn lemma_goal_index_after_update(
    goals: Seq<GoalSubmissionView>,
    submission_id: Seq<char>,
    gi: int,
    v: GoalSubmissionView,
)
    requires
        goal_index(goals, submission_id) == Some(gi),
        v.submission_id == submission_id,
    ensures
        goal_index(goals.update(gi, v), submission_id) == Some(gi),
{
    let g1 = goals.update(gi, v);
    assert(is_first_goal(goals, submission_id, gi));
    assert forall|j: int| 0 <= j < gi implies (#[trigger] g1[j]).submission_id != submission_id by {
        assert(g1[j] == goals[j]);
    }
    assert(g1[gi].submission_id == submission_id);
    assert(is_first_goal(g1, submission_id, gi));
    let c = choose|i: int| is_first_goal(g1, submission_id, i);
    if c < gi {
        assert(g1[c].submission_id != submission_id);
    } else if c > gi {
        assert(g1[gi].submission_id != submission_id);
    }
}

/// Reading the replays of the same comments a second time forwards
/// nothing: every replay the first reading offered is recorded as sent.
pub proof fn lemma_replay_selection_forwards_once(
    first: RedditHandleState,
    second: RedditHandleState,
    submission_id: Seq<char>,
    comments: Seq<Comment>,
)
    requires
        first.replay_selection_completes(submission_id, comments),
        second.goals() == first.replay_selection(submission_id, comments).1,
    ensures
        second.replay_selection(submission_id, comments).0 == match first.replay_selection(
            submission_id,
            comments,
        ).0 {
            None => None::<Seq<Seq<char>>>,
            Some(_) => Some(Seq::<Seq<char>>::empty()),
        },
{
    let fl = flattened_all(comments);
    match first_collecting(fl) {
        None => {},
        Some(a) => {
            let offered = offered_replays(fl, parent_key(fl[a].id.unwrap()@));
            let ids = comment_ids(offered);
            if offered.len() > 0 {
                let goals = first.goals();
                lemma_offered_exists(fl, parent_key(fl[a].id.unwrap()@));
                let gi = goal_index(goals, submission_id).unwrap();
                let g = goals[gi];
                lemma_goal_index_after_update(
                    goals,
                    submission_id,
                    gi,
                    GoalSubmissionView { sent_comment_ids: g.sent_comment_ids + ids, ..g },
                );
                let all = g.sent_comment_ids + ids;
                assert forall|k: int| 0 <= k < ids.len() implies all.contains(#[trigger] ids[k]) by {
                    assert(all[g.sent_comment_ids.len() + k] == ids[k]);
                }
                lemma_fresh_ids_of_sent(all, ids);
            }
        },
    }
}

} // verus!

//! Submissions of the subreddit, as they are read from its pages.
use vstd::prelude::*;

use chrono::DateTime;

use crate::html::{
    all_match_attributes, all_match_inner_html, attributes_in_document, checked_scrape_html,
    inner_html_in_document, invalid_selector_message, lookup_completes, scrape_error,
    scraped_attribute,
};
use crate::scrape::{outcome, ScrapeError};
use crate::text::{chars_of, concat_chars, text_of, trim, trim_chars};

verus! {

/// A submission read from its own page.
pub struct SubmissionScrape {
    pub submission_id: String,
    pub link: String,
    pub title: String,
}

/// A submission read from the listing of new submissions.
pub struct RedditSubmission {
    pub id: String,
    pub url: String,
    pub title: String,
    pub created_utc: i64,
}

/// A submission with the time it was posted, in seconds since the Unix epoch.
pub struct Submission {
    pub submission_id: String,
    pub title: String,
    pub link: String,
    pub posted_timestamp: i64,
}

/// The address of the page of the submission `submission_id`.
pub open spec fn submission_page(submission_id: Seq<char>) -> Seq<char> {
    "https://old.reddit.com/r/soccer/comments/"@ + submission_id + "/"@
}

/// The address of the page of the submission `submission_id`.
pub fn submission_page_url(submission_id: &str) -> (r: String)
    ensures
        r@ == submission_page(submission_id@),
{
    let a = chars_of("https://old.reddit.com/r/soccer/comments/");
    let b = chars_of(submission_id);
    let c = chars_of("/");
    let ab = concat_chars(a.as_slice(), b.as_slice());
    let abc = concat_chars(ab.as_slice(), c.as_slice());
    text_of(abc.as_slice())
}

/// The address of the listing of new submissions.
pub open spec fn new_submissions_page() -> Seq<char> {
    "https://old.reddit.com/r/soccer/new/"@
}

/// The address of the listing of new submissions.
pub fn new_submissions_url() -> (r: String)
    ensures
        r@ == new_submissions_page(),
{
    "https://old.reddit.com/r/soccer/new/".to_owned()
}

/// Reading a submission's page does not abort.
pub open spec fn submission_scrape_completes(document: Seq<char>) -> bool {
    &&& lookup_completes(document, "a.embed-comment"@, "data-title"@)
    &&& scraped_attribute(document, "a.embed-comment"@, "data-title"@) is Ok ==> lookup_completes(
        document,
        "a.title"@,
        "href"@,
    )
}

/// What a submission's page gives: its link and its trimmed title, or the
/// message of what went wrong.
pub open spec fn scraped_submission(document: Seq<char>) -> Result<(Seq<char>, Seq<char>), Seq<char>> {
    match scraped_attribute(document, "a.embed-comment"@, "data-title"@) {
        Err(e) => Err(e),
        Ok(title) => match scraped_attribute(document, "a.title"@, "href"@) {
            Err(e) => Err(e),
            Ok(link) => Ok((link, trim(title))),
        },
    }
}

/// A scraped submission as a value: its link and title, or the message.
pub open spec fn submission_outcome(r: Result<SubmissionScrape, ScrapeError>) -> Result<
    (Seq<char>, Seq<char>),
    Seq<char>,
> {
    match r {
        Ok(s) => Ok((s.link@, s.title@)),
        Err(e) => Err(e.0@),
    }
}

/// The submission read from its page, or `None` where reading aborts.
pub fn checked_submission_from_html(submission_id: &str, document: &str) -> (r: Option<
    Result<SubmissionScrape, ScrapeError>,
>)
    ensures
        r is None <==> !submission_scrape_completes(document@),
        r matches Some(res) ==> submission_outcome(res) == scraped_submission(document@),
        r matches Some(Ok(s)) ==> s.submission_id@ == submission_id@,
{
    let title = match checked_scrape_html(document, "a.embed-comment", "data-title") {
        None => return None,
        Some(Err(e)) => return Some(Err(e)),
        Some(Ok(t)) => t,
    };
    let title_chars = chars_of(title.as_str());
    let trimmed = trim_chars(title_chars.as_slice());
    let link = match checked_scrape_html(document, "a.title", "href") {
        None => return None,
        Some(Err(e)) => return Some(Err(e)),
        Some(Ok(l)) => l,
    };
    Some(
        Ok(
            SubmissionScrape {
                submission_id: submission_id.to_owned(),
                link,
                title: text_of(trimmed.as_slice()),
            },
        ),
    )
}

/// The submission `submission_id` read from its page with source
/// `document`.
pub fn submission_from_html(submission_id: &str, document: &str) -> (r: Result<
    SubmissionScrape,
    ScrapeError,
>)
    requires
        submission_scrape_completes(document@),
    ensures
        submission_outcome(r) == scraped_submission(document@),
        r matches Ok(s) ==> s.submission_id@ == submission_id@,
{
    match checked_submission_from_html(submission_id, document) {
        Some(r) => r,
        None => {
            assert(false);
            Err(scrape_error(""))
        },
    }
}

// ---------------------------------------------------------------------------
// The listing of new submissions
/// The number of seconds since the Unix epoch that `chrono` reads from the
/// RFC 3339 time `text`, or `None` where it refuses the text.
pub uninterp spec fn rfc3339_unix_seconds(text: Seq<char>) -> Option<i64>;

/// The Unix time of an RFC 3339 time.
///
/// Trusted: calls `chrono::DateTime::parse_from_rfc3339` and takes the
/// timestamp of the UTC date and time it gives; the contract only names the
/// outcome `rfc3339_unix_seconds`.
#[verifier::external_body]
fn unix_seconds_of_rfc3339(text: &str) -> (r: Option<i64>)
    ensures
        r == rfc3339_unix_seconds(text@),
{
    match DateTime::parse_from_rfc3339(text) {
        Ok(time) => Some(time.naive_utc().and_utc().timestamp()),
        Err(_) => None,
    }
}

/// The values that are present, in order.
pub open spec fn present(xs: Seq<Option<Seq<char>>>) -> Seq<Seq<char>>
    decreases xs.len(),
{
    if xs.len() == 0 {
        seq![]
    } else {
        let rest = present(xs.drop_last());
        match xs.last() {
            Some(v) => rest.push(v),
            None => rest,
        }
    }
}

/// The time of a listed submission: its RFC 3339 time, or the Unix epoch
/// where that does not parse.
pub open spec fn listed_time(text: Seq<char>) -> i64 {
    match rfc3339_unix_seconds(text) {
        Some(t) => t,
        None => 0,
    }
}

/// The columns of the listing: titles, ids, links and times, each in the
/// order in which `scraper` selects the elements; `None` where a selector
/// is refused.
pub open spec fn listing_columns(document: Seq<char>) -> Option<
    (Seq<Seq<char>>, Seq<Seq<char>>, Seq<Seq<char>>, Seq<Seq<char>>),
> {
    match (
        inner_html_in_document(document, "a.title"@),
        attributes_in_document(document, "div.thing"@, "data-fullname"@),
        attributes_in_document(document, "a.title"@, "href"@),
        attributes_in_document(document, ".live-timestamp"@, "datetime"@),
    ) {
        (Some(titles), Some(ids), Some(links), Some(times)) => Some(
            (titles, present(ids), present(links), present(times)),
        ),
        _ => None,
    }
}

/// The smallest of four lengths.
pub open spec fn min4(a: nat, b: nat, c: nat, d: nat) -> nat {
    let ab = if a <= b {
        a
    } else {
        b
    };
    let cd = if c <= d {
        c
    } else {
        d
    };
    if ab <= cd {
        ab
    } else {
        cd
    }
}

/// The values of `xs` that are present.
fn present_values(xs: Vec<Option<String>>) -> (r: Vec<String>)
    ensures
        r.deep_view() == present(xs.deep_view()),
{
    let mut r: Vec<String> = Vec::new();
    let ghost all = xs.deep_view();
    for i in 0..xs.len()
        invariant
            all == xs.deep_view(),
            r.deep_view() == present(all.take(i as int)),
    {
        assert(all.take(i + 1).drop_last() =~= all.take(i as int));
        assert(all[i as int] == xs@[i as int].deep_view());
        match &xs[i] {
            Some(v) => {
                let ghost before = r.deep_view();
                r.push(v.clone());
                assert(r.deep_view() =~= before.push(v@));
            },
            None => {},
        }
    }
    assert(all.take(xs@.len() as int) =~= all);
    r
}

/// The submissions of the listing of new submissions with source
/// `document`: the i-th title, id, link and time together, for as many as
/// every column has.
pub fn submissions_from_html(document: &str) -> (r: Result<Vec<RedditSubmission>, ScrapeError>)
    ensures
        match listing_columns(document@) {
            None => r matches Err(e) && e.0@ == invalid_selector_message(),
            Some((titles, ids, links, times)) => r matches Ok(v) && v@.len() == min4(
                titles.len(),
                ids.len(),
                links.len(),
                times.len(),
            ) && forall|i: int|
                0 <= i < v@.len() ==> {
                    &&& (#[trigger] v@[i]).title@ == titles[i]
                    &&& v@[i].id@ == ids[i]
                    &&& v@[i].url@ == links[i]
                    &&& v@[i].created_utc == listed_time(times[i])
                },
        },
{
    let selector_error = "The given String could not be parsed to a CSS selector";
    let titles = match all_match_inner_html(document, "a.title") {
        Some(t) => t,
        None => return Err(scrape_error(selector_error)),
    };
    let ids = match all_match_attributes(document, "div.thing", "data-fullname") {
        Some(x) => present_values(x),
        None => return Err(scrape_error(selector_error)),
    };
    let links = match all_match_attributes(document, "a.title", "href") {
        Some(x) => present_values(x),
        None => return Err(scrape_error(selector_error)),
    };
    let times = match all_match_attributes(document, ".live-timestamp", "datetime") {
        Some(x) => present_values(x),
        None => return Err(scrape_error(selector_error)),
    };
    let mut n = titles.len();
    if ids.len() < n {
        n = ids.len();
    }
    if links.len() < n {
        n = links.len();
    }
    if times.len() < n {
        n = times.len();
    }
    let ghost ts = titles.deep_view();
    let ghost is = ids.deep_view();
    let ghost ls = links.deep_view();
    let ghost ms = times.deep_view();
    let mut v: Vec<RedditSubmission> = Vec::new();
    for i in 0..n
        invariant
            n <= titles@.len(),
            n <= ids@.len(),
            n <= links@.len(),
            n <= times@.len(),
            ts == titles.deep_view(),
            is == ids.deep_view(),
            ls == links.deep_view(),
            ms == times.deep_view(),
            v@.len() == i,
            forall|k: int|
                0 <= k < i ==> {
                    &&& (#[trigger] v@[k]).title@ == ts[k]
                    &&& v@[k].id@ == is[k]
                    &&& v@[k].url@ == ls[k]
                    &&& v@[k].created_utc == listed_time(ms[k])
                },
    {
        let created_utc = match unix_seconds_of_rfc3339(times[i].as_str()) {
            Some(t) => t,
            None => 0,
        };
        assert(ms[i as int] == times@[i as int]@);
        v.push(
            RedditSubmission {
                url: links[i].clone(),
                id: ids[i].clone(),
                title: titles[i].clone(),
                created_utc,
            },
        );
    }
    Ok(v)
}

} // verus!

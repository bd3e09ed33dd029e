//! What the bot sends to Telegram, where it saves the clips, and how often
//! it tries.
use vstd::prelude::*;

use rand::{distributions::Alphanumeric, thread_rng, Rng};

use crate::text::{chars_of, concat_chars, text_of};

verus! {

/// The message that links a goal's submission: the caption in bold, as a
/// link to `url`.
pub open spec fn link_text(caption: Seq<char>, url: Seq<char>) -> Seq<char> {
    "<b><a href=\""@ + url + "\">"@ + caption + "</a></b>"@
}

/// The HTML message that links `url` under `caption`.
pub fn link_message(caption: &str, url: &str) -> (r: String)
    ensures
        r@ == link_text(caption@, url@),
{
    let m = chars_of("<b><a href=\"");
    let u = chars_of(url);
    let m = concat_chars(m.as_slice(), u.as_slice());
    let q = chars_of("\">");
    let m = concat_chars(m.as_slice(), q.as_slice());
    let c = chars_of(caption);
    let m = concat_chars(m.as_slice(), c.as_slice());
    let e = chars_of("</a></b>");
    let m = concat_chars(m.as_slice(), e.as_slice());
    text_of(m.as_slice())
}

/// The name of the file a clip is saved to: a random stem and `.mp4`.
pub fn video_file_name(stem: &str) -> (r: String)
    ensures
        r@ == stem@ + ".mp4"@,
{
    let s = chars_of(stem);
    let e = chars_of(".mp4");
    let n = concat_chars(s.as_slice(), e.as_slice());
    text_of(n.as_slice())
}

/// An ASCII letter or digit.
pub open spec fn is_ascii_alphanumeric(c: char) -> bool {
    ('a' <= c && c <= 'z') || ('A' <= c && c <= 'Z') || ('0' <= c && c <= '9')
}

/// `n` random ASCII letters and digits.
///
/// Trusted: takes `n` samples of `rand::distributions::Alphanumeric` from
/// `rand::thread_rng` and collects them as characters. Which characters
/// come is chance, so the contract says only what `rand` documents of every
/// outcome: `n` characters, each an ASCII letter or digit.
#[verifier::external_body]
fn random_string(n: usize) -> (r: String)
    ensures
        r@.len() == n,
        forall|i: int| 0 <= i < n ==> is_ascii_alphanumeric(#[trigger] r@[i]),
{
    thread_rng().sample_iter(&Alphanumeric).take(n).map(char::from).collect()
}

/// A fresh name for the file a clip is saved to: thirty random ASCII
/// letters and digits, then `.mp4`.
pub fn random_video_file_name() -> (r: String)
    ensures
        r@.len() == 34,
        r@.subrange(30, 34) == ".mp4"@,
        forall|i: int| 0 <= i < 30 ==> is_ascii_alphanumeric(#[trigger] r@[i]),
{
    let stem = random_string(30);
    let name = video_file_name(stem.as_str());
    proof {
        reveal_strlit(".mp4");
        assert(name@.subrange(30, 34) =~= ".mp4"@);
        assert forall|i: int| 0 <= i < 30 implies is_ascii_alphanumeric(#[trigger] name@[i]) by {
            assert(name@[i] == stem@[i]);
        }
    }
    name
}

/// What follows an attempt.
pub enum NextAttempt {
    /// The attempt succeeded.
    Done,
    /// Wait this many seconds, then try again.
    Retry { wait_secs: u64 },
    /// Wait this many seconds, then report the last failure.
    GiveUp { wait_secs: u64 },
}

/// Downloading a clip is tried at most ten times, ten seconds apart.
pub open spec fn download_step(attempt: u32, succeeded: bool) -> NextAttempt {
    if succeeded {
        NextAttempt::Done
    } else if attempt < 10 {
        NextAttempt::Retry { wait_secs: 10 }
    } else {
        NextAttempt::GiveUp { wait_secs: 0 }
    }
}

/// What follows download attempt number `attempt` (counted from one).
pub fn after_download_attempt(attempt: u32, succeeded: bool) -> (r: NextAttempt)
    ensures
        r == download_step(attempt, succeeded),
{
    if succeeded {
        NextAttempt::Done
    } else if attempt < 10 {
        NextAttempt::Retry { wait_secs: 10 }
    } else {
        NextAttempt::GiveUp { wait_secs: 0 }
    }
}

/// Sending a clip is tried at most nine times: the second attempt follows
/// the first at once, later ones follow a failure after thirty seconds, and
/// the last failure is reported after a wait of thirty seconds too.
pub open spec fn send_video_step(attempt: u32, succeeded: bool) -> NextAttempt {
    if succeeded {
        NextAttempt::Done
    } else if attempt <= 1 {
        NextAttempt::Retry { wait_secs: 0 }
    } else if attempt < 9 {
        NextAttempt::Retry { wait_secs: 30 }
    } else {
        NextAttempt::GiveUp { wait_secs: 30 }
    }
}

/// What follows attempt number `attempt` (counted from one) to send a clip.
pub fn after_send_video_attempt(attempt: u32, succeeded: bool) -> (r: NextAttempt)
    ensures
        r == send_video_step(attempt, succeeded),
{
    if succeeded {
        NextAttempt::Done
    } else if attempt <= 1 {
        NextAttempt::Retry { wait_secs: 0 }
    } else if attempt < 9 {
        NextAttempt::Retry { wait_secs: 30 }
    } else {
        NextAttempt::GiveUp { wait_secs: 30 }
    }
}

} // verus!

//! Finding the direct address of a clip on the page of its video host.
use vstd::prelude::*;

use url::{ParseError, Url};

use crate::html::{checked_scrape_html, lookup_completes, scrape_error, scraped_attribute};
use crate::numbers::{decimal, decimal_chars};
use crate::text::{
    chars_of, concat_chars, ends_with, ends_with_chars, replace_all, replace_all_chars,
    occurs_at, replace_first, replace_first_chars, starts_with, starts_with_chars, text_of,
};
use crate::videohost::{host_of, VideoHost};

verus! {

/// An error while scraping, with its message.
#[derive(Debug, Clone, PartialEq)]
pub struct ScrapeError(pub String);

/// How often, and how far apart, a scrape is tried.
pub struct ScrapeRetryWithTimeoutOptions {
    pub timeout_ms: u64,
    pub max_retries: u8,
    pub url: String,
}

/// A result as a value: the text on success, the message on error.
pub open spec fn outcome(r: Result<String, ScrapeError>) -> Result<Seq<char>, Seq<char>> {
    match r {
        Ok(s) => Ok(s@),
        Err(e) => Err(e.0@),
    }
}

// ---------------------------------------------------------------------------
// Absolute addresses
/// What `url::Url::parse` makes of `input`: the serialisation of the parsed
/// address on success; else the error's message, and whether the error is
/// `ParseError::RelativeUrlWithoutBase`.
pub uninterp spec fn url_parse(input: Seq<char>) -> (Option<Seq<char>>, Seq<char>, bool);

/// Parses `input` as an absolute address.
///
/// Trusted: calls `url::Url::parse` and hands back the serialisation of the
/// address (what `Url`'s `Display` writes), or the error's message and
/// whether it is `RelativeUrlWithoutBase`. The contract only names that
/// outcome `url_parse`.
#[verifier::external_body]
fn parse_url(input: &str) -> (r: (Option<String>, String, bool))
    ensures
        (r.0.deep_view(), r.1@, r.2) == url_parse(input@),
{
    match Url::parse(input) {
        Ok(url) => (Some(url.to_string()), String::new(), false),
        Err(ParseError::RelativeUrlWithoutBase) => (
            None,
            ParseError::RelativeUrlWithoutBase.to_string(),
            true,
        ),
        Err(error) => (None, error.to_string(), false),
    }
}

/// A relative address joined to `host`: a leading dot is dropped, and a
/// slash put in front where there is none.
pub open spec fn joined_to_host(url: Seq<char>, host: Seq<char>) -> Seq<char> {
    let without_dot = if starts_with(url, "."@) {
        replace_first(url, "."@, Seq::empty())
    } else {
        url
    };
    let rooted = if starts_with(without_dot, "/"@) {
        without_dot
    } else {
        "/"@ + without_dot
    };
    host + rooted
}

/// The absolute form of `url`: its own serialisation where it parses; where
/// it is relative, the serialisation of it joined to `host`; else the
/// message of what went wrong.
pub open spec fn absolute_url(url: Seq<char>, host: Seq<char>) -> Result<Seq<char>, Seq<char>> {
    let (parsed, message, relative) = url_parse(url);
    match parsed {
        Some(s) => Ok(s),
        None => if relative {
            let joined = joined_to_host(url, host);
            let (parsed_joined, message_joined, _) = url_parse(joined);
            match parsed_joined {
                Some(s) => Ok(s),
                None => Err("Concatted url is not valid: "@ + joined + " error: "@ + message_joined),
            }
        } else {
            Err("Keine gültige URL: "@ + url + " Host: "@ + host + " Fehler: "@ + message)
        },
    }
}

/// `a` followed by the characters of `b`.
fn append_str(a: &[char], b: &str) -> (r: Vec<char>)
    ensures
        r@ == a@ + b@,
{
    let bc = chars_of(b);
    concat_chars(a, bc.as_slice())
}

/// The absolute address of `url`, joining it to `host` where it is relative.
pub fn add_host_if_url_is_relative(url: &str, host: &str) -> (r: Result<String, ScrapeError>)
    ensures
        outcome(r) == absolute_url(url@, host@),
{
    let (parsed, message, relative) = parse_url(url);
    match parsed {
        Some(s) => Ok(s),
        None => {
            let url_chars = chars_of(url);
            let host_chars = chars_of(host);
            if relative {
                let dot = chars_of(".");
                let slash = chars_of("/");
                let empty: Vec<char> = Vec::new();
                let without_dot = if starts_with_chars(url_chars.as_slice(), dot.as_slice()) {
                    replace_first_chars(url_chars.as_slice(), dot.as_slice(), empty.as_slice())
                } else {
                    url_chars
                };
                let rooted = if starts_with_chars(without_dot.as_slice(), slash.as_slice()) {
                    without_dot
                } else {
                    concat_chars(slash.as_slice(), without_dot.as_slice())
                };
                assert(empty@ =~= Seq::<char>::empty());
                let joined_chars = concat_chars(host_chars.as_slice(), rooted.as_slice());
                let joined = text_of(joined_chars.as_slice());
                let (parsed_joined, message_joined, _) = parse_url(joined.as_str());
                match parsed_joined {
                    Some(s) => Ok(s),
                    None => {
                        let m = chars_of("Concatted url is not valid: ");
                        let m = concat_chars(m.as_slice(), joined_chars.as_slice());
                        let m = append_str(m.as_slice(), " error: ");
                        let m = append_str(m.as_slice(), message_joined.as_str());
                        Err(ScrapeError(text_of(m.as_slice())))
                    },
                }
            } else {
                let m = chars_of("Keine gültige URL: ");
                let m = concat_chars(m.as_slice(), url_chars.as_slice());
                let m = append_str(m.as_slice(), " Host: ");
                let m = concat_chars(m.as_slice(), host_chars.as_slice());
                let m = append_str(m.as_slice(), " Fehler: ");
                let m = append_str(m.as_slice(), message.as_str());
                Err(ScrapeError(text_of(m.as_slice())))
            }
        },
    }
}

// ---------------------------------------------------------------------------
// Reading the clip's address from the host's page
/// The CSS selector of the element that holds a host's clip.
pub open spec fn clip_selector(h: VideoHost) -> Seq<char> {
    match h {
        VideoHost::Streamwo => "body video > source"@,
        VideoHost::Streamja => "video > source"@,
        VideoHost::Streamye => "body video > source"@,
        VideoHost::Streamable => "div > video"@,
        VideoHost::Imgtc => "div#player>iframe"@,
        VideoHost::Clippituser => "#player-container"@,
        VideoHost::Vimeo => "div#player>iframe"@,
        VideoHost::Streamvi => "video > source"@,
        VideoHost::Juststream => "div#player>iframe"@,
        VideoHost::Streamff => "video"@,
        VideoHost::Streamgg => "video > source"@,
        VideoHost::Streamin => "video"@,
        VideoHost::Dubz => "video > source"@,
        VideoHost::Streambug => "video"@,
        VideoHost::Streamain => Seq::empty(),
    }
}

/// The attribute of that element that holds the clip's address.
pub open spec fn clip_attribute(h: VideoHost) -> Seq<char> {
    match h {
        VideoHost::Clippituser => "data-hd-file"@,
        _ => "src"@,
    }
}

/// The host against which a relative clip address is resolved, for the
/// hosts whose pages give relative ones.
pub open spec fn clip_base(h: VideoHost) -> Option<Seq<char>> {
    match h {
        VideoHost::Streamwo => Some("https://streamwo.com"@),
        VideoHost::Streamye => Some("https://streamye.com"@),
        VideoHost::Streamin => Some("https://streamin.me"@),
        _ => None,
    }
}

/// The message for a host without a scraping rule, or an unknown one.
pub open spec fn unknown_host_message() -> Seq<char> {
    "Unkown VideoHost"@
}

/// Reading the clip from the page does not abort: no lookup that is made
/// ends at an element without the attribute.
pub open spec fn scrape_completes(document: Seq<char>, h: VideoHost) -> bool {
    match h {
        VideoHost::Streamain => true,
        VideoHost::Dubz => {
            &&& lookup_completes(document, "video > source"@, "src"@)
            &&& scraped_attribute(document, "video > source"@, "src"@) is Err ==> lookup_completes(
                document,
                "video"@,
                "src"@,
            )
        },
        _ => lookup_completes(document, clip_selector(h), clip_attribute(h)),
    }
}

/// The address of the clip on the host's page with source `document`, or
/// the message of what went wrong. Dubz pages are read at `video > source`
/// and, failing that, at `video`.
pub open spec fn scraped_clip(document: Seq<char>, h: VideoHost) -> Result<Seq<char>, Seq<char>> {
    match h {
        VideoHost::Streamain => Err(unknown_host_message()),
        VideoHost::Dubz => match scraped_attribute(document, "video > source"@, "src"@) {
            Ok(v) => Ok(v),
            Err(_) => scraped_attribute(document, "video"@, "src"@),
        },
        _ => match scraped_attribute(document, clip_selector(h), clip_attribute(h)) {
            Err(e) => Err(e),
            Ok(v) => match clip_base(h) {
                None => Ok(v),
                Some(base) => absolute_url(v, base),
            },
        },
    }
}

/// Reads the clip at `selector`, then resolves it against `base`.
fn scrape_and_resolve(document: &str, selector: &str, attribute: &str, base: &str) -> (r: Option<
    Result<String, ScrapeError>,
>)
    ensures
        r is None <==> !lookup_completes(document@, selector@, attribute@),
        r matches Some(res) ==> outcome(res) == match scraped_attribute(
            document@,
            selector@,
            attribute@,
        ) {
            Err(e) => Err(e),
            Ok(v) => absolute_url(v, base@),
        },
{
    match checked_scrape_html(document, selector, attribute) {
        None => None,
        Some(Err(e)) => Some(Err(e)),
        Some(Ok(v)) => Some(add_host_if_url_is_relative(v.as_str(), base)),
    }
}

/// The clip of the page, or `None` where reading it aborts.
fn scrape_clip(document: &str, video_host: &VideoHost) -> (r: Option<Result<String, ScrapeError>>)
    ensures
        r is None <==> !scrape_completes(document@, *video_host),
        r matches Some(res) ==> outcome(res) == scraped_clip(document@, *video_host),
{
    match video_host {
        VideoHost::Streamwo => scrape_and_resolve(
            document,
            "body video > source",
            "src",
            "https://streamwo.com",
        ),
        VideoHost::Streamja => checked_scrape_html(document, "video > source", "src"),
        VideoHost::Streamye => scrape_and_resolve(
            document,
            "body video > source",
            "src",
            "https://streamye.com",
        ),
        VideoHost::Streamable => checked_scrape_html(document, "div > video", "src"),
        VideoHost::Imgtc => checked_scrape_html(document, "div#player>iframe", "src"),
        VideoHost::Clippituser => checked_scrape_html(
            document,
            "#player-container",
            "data-hd-file",
        ),
        VideoHost::Vimeo => checked_scrape_html(document, "div#player>iframe", "src"),
        VideoHost::Streamvi => checked_scrape_html(document, "video > source", "src"),
        VideoHost::Juststream => checked_scrape_html(document, "div#player>iframe", "src"),
        VideoHost::Streamff => checked_scrape_html(document, "video", "src"),
        VideoHost::Streamgg => checked_scrape_html(document, "video > source", "src"),
        VideoHost::Streamin => scrape_and_resolve(document, "video", "src", "https://streamin.me"),
        VideoHost::Dubz => match checked_scrape_html(document, "video > source", "src") {
            None => None,
            Some(Ok(v)) => Some(Ok(v)),
            Some(Err(_)) => checked_scrape_html(document, "video", "src"),
        },
        VideoHost::Streambug => checked_scrape_html(document, "video", "src"),
        VideoHost::Streamain => Some(Err(scrape_error("Unkown VideoHost"))),
    }
}

/// The address of the clip on the page of `video_host` with source
/// `document`.
pub fn scrape_from_html(document: &str, video_host: &VideoHost) -> (r: Result<String, ScrapeError>)
    requires
        scrape_completes(document@, *video_host),
    ensures
        outcome(r) == scraped_clip(document@, *video_host),
{
    match scrape_clip(document, video_host) {
        Some(r) => r,
        None => {
            assert(false);
            Err(scrape_error(""))
        },
    }
}

/// The address of the clip on the page of `video_host` with source
/// `document`; `None` where reading it aborts.
pub fn checked_scrape_from_html(document: &str, video_host: &VideoHost) -> (r: Option<
    Result<String, ScrapeError>,
>)
    ensures
        r is None <==> !scrape_completes(document@, *video_host),
        r matches Some(res) ==> outcome(res) == scraped_clip(document@, *video_host),
{
    scrape_clip(document, video_host)
}

// ---------------------------------------------------------------------------
// Fetching the page
/// How the page of a clip is fetched.
pub enum FetchPlan {
    /// A plain request for the address.
    WithoutBrowser(String),
    /// A browser opens the address and waits for `selector` to appear.
    WithBrowser { url: String, selector: String },
}

/// A fetch plan as a value: whether a browser is used, the address, and the
/// selector waited for.
pub open spec fn plan_view(p: FetchPlan) -> (bool, Seq<char>, Seq<char>) {
    match p {
        FetchPlan::WithoutBrowser(url) => (false, url@, Seq::empty()),
        FetchPlan::WithBrowser { url, selector } => (true, url@, selector@),
    }
}

/// The address of a Dubz page on the mirror without bot protection: the
/// first `.link`, then the first `.co`, turned into `.cc`.
pub open spec fn dubz_mirror(url: Seq<char>) -> Seq<char> {
    replace_first(replace_first(url, ".link"@, ".cc"@), ".co"@, ".cc"@)
}

/// How the page at `url` is fetched, or the message of why it cannot be.
pub open spec fn planned_fetch(url: Seq<char>) -> Result<(bool, Seq<char>, Seq<char>), Seq<char>> {
    match host_of(url) {
        None => Err(unknown_host_message()),
        Some(VideoHost::Streamain) => Err(unknown_host_message()),
        Some(VideoHost::Dubz) => Ok((false, dubz_mirror(url), Seq::empty())),
        Some(VideoHost::Streambug) => Ok((true, url, "video"@)),
        Some(VideoHost::Streamff) => Ok((true, url, "video"@)),
        Some(_) => Ok((false, url, Seq::empty())),
    }
}

/// How the page of the clip at `url` is to be fetched.
pub fn fetch_plan(url: &str) -> (r: Result<FetchPlan, ScrapeError>)
    ensures
        match r {
            Ok(p) => planned_fetch(url@) == Ok::<_, Seq<char>>(plan_view(p)),
            Err(e) => planned_fetch(url@) == Err::<(bool, Seq<char>, Seq<char>), _>(e.0@),
        },
{
    let video_host = match VideoHost::from_str(url) {
        Ok(h) => h,
        Err(_) => return Err(scrape_error("Unkown VideoHost")),
    };
    match video_host {
        VideoHost::Dubz => {
            // Only some of Dubz's top-level domains sit behind bot
            // protection, and an address is valid on all of them.
            let u = chars_of(url);
            let link = chars_of(".link");
            let co = chars_of(".co");
            let cc = chars_of(".cc");
            let a = replace_first_chars(u.as_slice(), link.as_slice(), cc.as_slice());
            let b = replace_first_chars(a.as_slice(), co.as_slice(), cc.as_slice());
            Ok(FetchPlan::WithoutBrowser(text_of(b.as_slice())))
        },
        VideoHost::Streambug | VideoHost::Streamff => Ok(
            FetchPlan::WithBrowser { url: url.to_owned(), selector: "video".to_owned() },
        ),
        VideoHost::Streamain => Err(scrape_error("Unkown VideoHost")),
        _ => Ok(FetchPlan::WithoutBrowser(url.to_owned())),
    }
}

// ---------------------------------------------------------------------------
// After the scrape
/// The message for a clip in the `.mov` format.
pub open spec fn mov_message() -> Seq<char> {
    "Scrape Error: .mov files are not properly supported by telegram"@
}

/// The address that a scrape result gives: not a `.mov` file, and parsed as
/// an absolute address.
pub open spec fn checked_clip_url(scrape_result: Seq<char>) -> Result<Seq<char>, Seq<char>> {
    if ends_with(scrape_result, ".mov"@) {
        Err(mov_message())
    } else {
        let (parsed, message, _) = url_parse(scrape_result);
        match parsed {
            Some(u) => Ok(u),
            None => Err(message),
        }
    }
}

/// The address of a scraped clip, checked to be one that can be sent.
pub fn validate_scraped_url(scrape_result: &str) -> (r: Result<String, ScrapeError>)
    ensures
        outcome(r) == checked_clip_url(scrape_result@),
{
    let chars = chars_of(scrape_result);
    let mov = chars_of(".mov");
    if ends_with_chars(chars.as_slice(), mov.as_slice()) {
        return Err(
            scrape_error("Scrape Error: .mov files are not properly supported by telegram"),
        );
    }
    let (parsed, message, _) = parse_url(scrape_result);
    match parsed {
        Some(u) => Ok(u),
        None => Err(ScrapeError(message)),
    }
}

/// What to do after a failed attempt.
pub enum RetryStep {
    /// Stop and report the error.
    GiveUp(ScrapeError),
    /// Wait this many milliseconds, then try again.
    Wait(u64),
}

/// What an attempt to scrape a clip came to.
pub enum ScrapeAttempt {
    /// The page could not be fetched.
    FetchFailed(ScrapeError),
    /// The page was fetched and read: the clip's address, or why it is not
    /// there.
    Read(Result<String, ScrapeError>),
}

/// What follows an attempt to scrape a clip.
pub enum ScrapeStep {
    /// Stop with this result.
    Finish(Result<String, ScrapeError>),
    /// Wait `wait_ms` milliseconds, then make the attempt `next`; where it
    /// is `None`, stop with the error of exhausted attempts.
    Wait { wait_ms: u64, next: Option<u8> },
}

/// The host of a clip address, or the error that ends the scrape.
pub fn host_for_scrape(url: &str) -> (r: Result<VideoHost, ScrapeError>)
    ensures
        match r {
            Ok(h) => host_of(url@) == Some(h),
            Err(e) => host_of(url@) is None && e.0@ == unknown_host_message(),
        },
{
    match VideoHost::from_str(url) {
        Ok(h) => Ok(h),
        Err(_) => Err(scrape_error("Unkown VideoHost")),
    }
}

impl ScrapeRetryWithTimeoutOptions {
    /// The options with which a clip is scraped: twelve attempts, ten seconds
    /// apart.
    pub fn for_url(url: &str) -> (r: ScrapeRetryWithTimeoutOptions)
        ensures
            r.max_retries == 12,
            r.timeout_ms == 10_000,
            r.url@ == url@,
    {
        ScrapeRetryWithTimeoutOptions { max_retries: 12, timeout_ms: 10_000, url: url.to_owned() }
    }

    /// What follows the failure `error` of attempt number `attempt`
    /// (counted from zero): give up after the attempt numbered
    /// `max_retries`, else wait `timeout_ms`.
    pub fn after_failed_attempt(&self, attempt: u8, error: ScrapeError) -> (r: RetryStep)
        ensures
            attempt == self.max_retries ==> r == RetryStep::GiveUp(error),
            attempt != self.max_retries ==> r == RetryStep::Wait(self.timeout_ms),
    {
        if attempt == self.max_retries {
            RetryStep::GiveUp(error)
        } else {
            RetryStep::Wait(self.timeout_ms)
        }
    }

    /// The first attempt (attempts are counted from zero), where any is made:
    /// none where `max_retries` is zero.
    pub fn first_attempt(&self) -> (r: Option<u8>)
        ensures
            self.max_retries > 0 ==> r == Some(0u8),
            self.max_retries == 0 ==> r is None,
    {
        if self.max_retries > 0 {
            Some(0)
        } else {
            None
        }
    }

    /// What follows attempt number `attempt` (counted from zero) once it came
    /// to `outcome`: a fetch error ends the scrape with that error, and an
    /// address read from the page ends it with that address; a page without
    /// the address is followed by a wait of `timeout_ms`, then by the next
    /// attempt while attempts below `max_retries` are left (the attempt
    /// numbered `max_retries` itself ends with its error).
    pub fn after_attempt(&self, attempt: u8, outcome: ScrapeAttempt) -> (r: ScrapeStep)
        ensures
            match outcome {
                ScrapeAttempt::FetchFailed(e) => r == ScrapeStep::Finish(Err(e)),
                ScrapeAttempt::Read(Ok(v)) => r == ScrapeStep::Finish(Ok(v)),
                ScrapeAttempt::Read(Err(e)) => if attempt == self.max_retries {
                    r == ScrapeStep::Finish(Err(e))
                } else {
                    r == ScrapeStep::Wait {
                        wait_ms: self.timeout_ms,
                        next: if attempt + 1 < self.max_retries {
                            Some((attempt + 1) as u8)
                        } else {
                            None
                        },
                    }
                },
            },
    {
        match outcome {
            ScrapeAttempt::FetchFailed(e) => ScrapeStep::Finish(Err(e)),
            ScrapeAttempt::Read(Ok(v)) => ScrapeStep::Finish(Ok(v)),
            ScrapeAttempt::Read(Err(e)) => match self.after_failed_attempt(attempt, e) {
                RetryStep::GiveUp(e) => ScrapeStep::Finish(Err(e)),
                RetryStep::Wait(wait_ms) => {
                    let next = if attempt < self.max_retries && attempt + 1 < self.max_retries {
                        Some(attempt + 1)
                    } else {
                        None
                    };
                    ScrapeStep::Wait { wait_ms, next }
                },
            },
        }
    }

    /// The message once every attempt has failed.
    pub open spec fn exhausted_message(&self) -> Seq<char> {
        "Scraping of url "@ + self.url@ + " failed after "@ + decimal(self.max_retries as nat)
            + " attempts with timeout "@ + decimal(self.timeout_ms as nat)
    }

    /// The error once every attempt has failed.
    pub fn exhausted_error(&self) -> (r: ScrapeError)
        ensures
            r.0@ == self.exhausted_message(),
    {
        let m = chars_of("Scraping of url ");
        let m = append_str(m.as_slice(), self.url.as_str());
        let m = append_str(m.as_slice(), " failed after ");
        let n = decimal_chars(self.max_retries as u64);
        let m = concat_chars(m.as_slice(), n.as_slice());
        let m = append_str(m.as_slice(), " attempts with timeout ");
        let t = decimal_chars(self.timeout_ms);
        let m = concat_chars(m.as_slice(), t.as_slice());
        ScrapeError(text_of(m.as_slice()))
    }
}

/// The text of a value that a browser hands back, with every double quote
/// removed.
pub open spec fn unquoted(text: Seq<char>) -> Seq<char> {
    replace_all(text, "\""@, Seq::empty())
}

/// The text with every double quote removed.
pub fn remove_quotes(text: &str) -> (r: String)
    ensures
        r@ == unquoted(text@),
{
    let t = chars_of(text);
    let q = chars_of("\"");
    let empty: Vec<char> = Vec::new();
    proof {
        reveal_strlit("\"");
    }
    assert(empty@ =~= Seq::<char>::empty());
    let r = replace_all_chars(t.as_slice(), q.as_slice(), empty.as_slice());
    text_of(r.as_slice())
}


/// Pages of Streambug and Streamff render their video in the browser, so
/// they are fetched by a browser that waits for `video`; the pages of the
/// hosts served as plain HTML are fetched by a plain request of the link
/// itself.
pub proof fn lemma_fetch_plan_per_host(url: Seq<char>)
    ensures
        host_of(url) == Some(VideoHost::Streambug) ==> planned_fetch(url) == Ok::<
            (bool, Seq<char>, Seq<char>),
            Seq<char>,
        >((true, url, "video"@)),
        host_of(url) == Some(VideoHost::Streamff) ==> planned_fetch(url) == Ok::<
            (bool, Seq<char>, Seq<char>),
            Seq<char>,
        >((true, url, "video"@)),
        (host_of(url) == Some(VideoHost::Streamwo) || host_of(url) == Some(VideoHost::Streamja)
            || host_of(url) == Some(VideoHost::Streamye) || host_of(url) == Some(
            VideoHost::Streamable,
        ) || host_of(url) == Some(VideoHost::Imgtc) || host_of(url) == Some(
            VideoHost::Clippituser,
        ) || host_of(url) == Some(VideoHost::Vimeo) || host_of(url) == Some(VideoHost::Streamvi)
            || host_of(url) == Some(VideoHost::Juststream) || host_of(url) == Some(
            VideoHost::Streamgg,
        ) || host_of(url) == Some(VideoHost::Streamin)) ==> planned_fetch(url) == Ok::<
            (bool, Seq<char>, Seq<char>),
            Seq<char>,
        >((false, url, Seq::empty())),
        host_of(url) == Some(VideoHost::Dubz) ==> planned_fetch(url) == Ok::<
            (bool, Seq<char>, Seq<char>),
            Seq<char>,
        >((false, replace_first(replace_first(url, ".link"@, ".cc"@), ".co"@, ".cc"@), Seq::empty())),
        (host_of(url) is None || host_of(url) == Some(VideoHost::Streamain)) ==> planned_fetch(url)
            == Err::<(bool, Seq<char>, Seq<char>), Seq<char>>("Unkown VideoHost"@),
{
}

/// Where each host keeps its clip: the address is the attribute `src` (for
/// Clippituser `data-hd-file`) of the first element matching the host's
/// selector; Dubz pages are read at `video > source` and, failing that, at
/// `video`; Streamain has no rule.
pub proof fn lemma_clip_read_per_host(document: Seq<char>)
    ensures
        scraped_clip(document, VideoHost::Streamja) == scraped_attribute(document, "video > source"@, "src"@),
        scraped_clip(document, VideoHost::Streamable) == scraped_attribute(document, "div > video"@, "src"@),
        scraped_clip(document, VideoHost::Imgtc) == scraped_attribute(document, "div#player>iframe"@, "src"@),
        scraped_clip(document, VideoHost::Clippituser) == scraped_attribute(
            document,
            "#player-container"@,
            "data-hd-file"@,
        ),
        scraped_clip(document, VideoHost::Vimeo) == scraped_attribute(document, "div#player>iframe"@, "src"@),
        scraped_clip(document, VideoHost::Streamvi) == scraped_attribute(document, "video > source"@, "src"@),
        scraped_clip(document, VideoHost::Juststream) == scraped_attribute(
            document,
            "div#player>iframe"@,
            "src"@,
        ),
        scraped_clip(document, VideoHost::Streamff) == scraped_attribute(document, "video"@, "src"@),
        scraped_clip(document, VideoHost::Streamgg) == scraped_attribute(document, "video > source"@, "src"@),
        scraped_clip(document, VideoHost::Streambug) == scraped_attribute(document, "video"@, "src"@),
        scraped_attribute(document, "body video > source"@, "src"@) is Err ==> scraped_clip(
            document,
            VideoHost::Streamwo,
        ) == scraped_attribute(document, "body video > source"@, "src"@),
        scraped_attribute(document, "body video > source"@, "src"@) is Err ==> scraped_clip(
            document,
            VideoHost::Streamye,
        ) == scraped_attribute(document, "body video > source"@, "src"@),
        scraped_attribute(document, "video"@, "src"@) is Err ==> scraped_clip(document, VideoHost::Streamin)
            == scraped_attribute(document, "video"@, "src"@),
        scraped_attribute(document, "video > source"@, "src"@) is Ok ==> scraped_clip(
            document,
            VideoHost::Dubz,
        ) == scraped_attribute(document, "video > source"@, "src"@),
        scraped_attribute(document, "video > source"@, "src"@) is Err ==> scraped_clip(
            document,
            VideoHost::Dubz,
        ) == scraped_attribute(document, "video"@, "src"@),
        scraped_clip(document, VideoHost::Streamain) == Err::<Seq<char>, Seq<char>>("Unkown VideoHost"@),
{
}

/// Streamwo, Streamye and Streamin pages give the clip's address, possibly
/// relative to the host: every address a scrape of such a page yields is
/// one that `url::Url::parse` produced, and a relative `/p` read on the page
/// yields what the parser makes of the host's address followed by `/p`.
pub proof fn lemma_relative_clips_resolved_on_host(document: Seq<char>, p: Seq<char>)
    ensures
        scraped_clip(document, VideoHost::Streamwo) matches Ok(r) ==> exists|u: Seq<char>|
            #[trigger] url_parse(u).0 == Some(r),
        scraped_clip(document, VideoHost::Streamye) matches Ok(r) ==> exists|u: Seq<char>|
            #[trigger] url_parse(u).0 == Some(r),
        scraped_clip(document, VideoHost::Streamin) matches Ok(r) ==> exists|u: Seq<char>|
            #[trigger] url_parse(u).0 == Some(r),
        p.len() > 0 && p[0] == '/' && url_parse(p).0 is None && url_parse(p).2 ==> {
            &&& scraped_attribute(document, "body video > source"@, "src"@) == Ok::<
                Seq<char>,
                Seq<char>,
            >(p) ==> match url_parse("https://streamwo.com"@ + p).0 {
                Some(s) => scraped_clip(document, VideoHost::Streamwo) == Ok::<
                    Seq<char>,
                    Seq<char>,
                >(s),
                None => scraped_clip(document, VideoHost::Streamwo) is Err,
            }
            &&& scraped_attribute(document, "body video > source"@, "src"@) == Ok::<
                Seq<char>,
                Seq<char>,
            >(p) ==> match url_parse("https://streamye.com"@ + p).0 {
                Some(s) => scraped_clip(document, VideoHost::Streamye) == Ok::<
                    Seq<char>,
                    Seq<char>,
                >(s),
                None => scraped_clip(document, VideoHost::Streamye) is Err,
            }
            &&& scraped_attribute(document, "video"@, "src"@) == Ok::<Seq<char>, Seq<char>>(p)
                ==> match url_parse("https://streamin.me"@ + p).0 {
                Some(s) => scraped_clip(document, VideoHost::Streamin) == Ok::<
                    Seq<char>,
                    Seq<char>,
                >(s),
                None => scraped_clip(document, VideoHost::Streamin) is Err,
            }
        },
{
    reveal_strlit(".");
    reveal_strlit("/");
    if p.len() > 0 && p[0] == '/' {
        assert(!starts_with(p, "."@)) by {
            assert(p.subrange(0, 1)[0] == p[0]);
            assert("."@[0] == '.');
        }
        assert(starts_with(p, "/"@)) by {
            assert(p.subrange(0, 1) =~= "/"@);
        }
    }
    let hosts = seq![VideoHost::Streamwo, VideoHost::Streamye, VideoHost::Streamin];
    assert forall|k: int| 0 <= k < 3 implies (scraped_clip(document, #[trigger] hosts[k]) matches Ok(r)
        ==> exists|u: Seq<char>| #[trigger] url_parse(u).0 == Some(r)) by {
        let h = hosts[k];
        if let Ok(r) = scraped_clip(document, h) {
            let v = scraped_attribute(document, clip_selector(h), clip_attribute(h))->Ok_0;
            let base = clip_base(h)->Some_0;
            if url_parse(v).0 is Some {
                assert(url_parse(v).0 == Some(r));
            } else {
                assert(url_parse(joined_to_host(v, base)).0 == Some(r));
            }
        }
    }
    assert(hosts[0] == VideoHost::Streamwo);
    assert(hosts[1] == VideoHost::Streamye);
    assert(hosts[2] == VideoHost::Streamin);
}


/// How a relative address is joined to its host: one leading `/` is kept,
/// a leading `.` is dropped first, and a slash is put in front of an
/// address that has none.
pub proof fn lemma_relative_addresses_joined(v: Seq<char>, host: Seq<char>)
    requires
        v.len() > 0,
    ensures
        v[0] == '/' ==> joined_to_host(v, host) == host + v,
        v[0] == '.' && v.len() > 1 && v[1] == '/' ==> joined_to_host(v, host) == host + v.drop_first(),
        v[0] == '.' && (v.len() == 1 || v[1] != '/') ==> joined_to_host(v, host) == host + "/"@
            + v.drop_first(),
        v[0] != '.' && v[0] != '/' ==> joined_to_host(v, host) == host + "/"@ + v,
{
    reveal_strlit(".");
    reveal_strlit("/");
    assert(starts_with(v, "."@) <==> v[0] == '.') by {
        if starts_with(v, "."@) {
            assert(v.subrange(0, 1)[0] == v[0]);
        }
        if v[0] == '.' {
            assert(v.subrange(0, 1) =~= "."@);
        }
    }
    assert(starts_with(v, "/"@) <==> v[0] == '/') by {
        if starts_with(v, "/"@) {
            assert(v.subrange(0, 1)[0] == v[0]);
        }
        if v[0] == '/' {
            assert(v.subrange(0, 1) =~= "/"@);
        }
    }
    if v[0] == '.' {
        let d = v.drop_first();
        assert(occurs_at(v, "."@, 0));
        let i = choose|i: int| occurs_at(v, "."@, i) && forall|j: int| 0 <= j < i ==> !occurs_at(v, "."@, j);
        if i > 0 {
            assert(!occurs_at(v, "."@, 0));
        }
        assert(replace_first(v, "."@, Seq::empty()) =~= d);
        if d.len() > 0 {
            assert(starts_with(d, "/"@) <==> d[0] == '/') by {
                if starts_with(d, "/"@) {
                    assert(d.subrange(0, 1)[0] == d[0]);
                }
                if d[0] == '/' {
                    assert(d.subrange(0, 1) =~= "/"@);
                }
            }
            assert(d[0] == v[1]);
        } else {
            assert(!starts_with(d, "/"@));
        }
    }
}

/// A scraped address of a `.mov` file is refused, whatever precedes the
/// extension.
pub proof fn lemma_mov_refused(stem: Seq<char>)
    ensures
        checked_clip_url(stem + ".mov"@) == Err::<Seq<char>, Seq<char>>(
            "Scrape Error: .mov files are not properly supported by telegram"@,
        ),
{
    reveal_strlit(".mov");
    let s = stem + ".mov"@;
    assert(s.subrange(s.len() - 4, s.len() as int) =~= ".mov"@);
}

} // verus!

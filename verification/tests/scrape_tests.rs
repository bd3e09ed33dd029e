use goal_bot::html::{checked_scrape_html, scrape_html};
use goal_bot::reddit_scrape::{
    checked_submission_from_html, new_submissions_url, submission_page_url, submissions_from_html,
};
use goal_bot::scrape::{
    add_host_if_url_is_relative, checked_scrape_from_html, fetch_plan, host_for_scrape,
    remove_quotes, validate_scraped_url, FetchPlan, RetryStep, ScrapeAttempt, ScrapeError,
    ScrapeRetryWithTimeoutOptions, ScrapeStep,
};
use goal_bot::videohost::{UnkownVideoHostError, VideoHost};

#[test]
fn test_add_host_if_url_is_relative() {
    assert_eq!(
        add_host_if_url_is_relative("/uploads/fc38d308.mp4#t=0.1", "https://streamin.me"),
        Ok("https://streamin.me/uploads/fc38d308.mp4#t=0.1".to_string())
    );
    assert_eq!(
        add_host_if_url_is_relative("./uploads/2e5be99a.mp4#t=0.1", "https://streamin.me"),
        Ok("https://streamin.me/uploads/2e5be99a.mp4#t=0.1".to_string())
    );
    assert_eq!(
        add_host_if_url_is_relative(
            "https://dubzalt.com/storage/videos/3ea24e.mp4",
            "https://dubzalt.com"
        ),
        Ok("https://dubzalt.com/storage/videos/3ea24e.mp4".to_string())
    );
}

#[test]
fn relative_address_without_slash_gets_one() {
    assert_eq!(
        add_host_if_url_is_relative("uploads/a.mp4", "https://streamin.me"),
        Ok("https://streamin.me/uploads/a.mp4".to_string())
    );
}

#[test]
fn invalid_address_is_reported() {
    let r = add_host_if_url_is_relative("http://[::1", "https://streamin.me");
    let ScrapeError(message) = r.unwrap_err();
    assert!(message.starts_with("Keine gültige URL: http://[::1 Host: https://streamin.me Fehler: "));
}

#[test]
fn unknown_host_ends_the_scrape() {
    assert_eq!(
        host_for_scrape("https://streamall.me/ra_goO7Rm").unwrap_err(),
        ScrapeError("Unkown VideoHost".to_string())
    );
    assert!(matches!(fetch_plan("https://streamall.me/ra_goO7Rm"), Err(ScrapeError(m)) if m == "Unkown VideoHost"));
}

#[test]
fn hosts_are_read_from_links() {
    assert_eq!(VideoHost::from_str("https://streamin.me/v/3727f22e"), Ok(VideoHost::Streamin));
    assert_eq!(VideoHost::from_str("HTTPS://WWW.Streamable.com/x"), Ok(VideoHost::Streamable));
    assert_eq!(VideoHost::from_str("dubz.link/v/akm002"), Ok(VideoHost::Dubz));
    assert_eq!(VideoHost::from_str("https://streamain.com/x"), Ok(VideoHost::Streamain));
    assert_eq!(VideoHost::from_str("https://example.com/x"), Err(UnkownVideoHostError));
    assert_eq!(VideoHost::from_str(""), Err(UnkownVideoHostError));
}

#[test]
fn host_names_read_back() {
    let all = [
        VideoHost::Streamwo,
        VideoHost::Streamja,
        VideoHost::Streamye,
        VideoHost::Streamable,
        VideoHost::Imgtc,
        VideoHost::Clippituser,
        VideoHost::Vimeo,
        VideoHost::Streamvi,
        VideoHost::Juststream,
        VideoHost::Streamff,
        VideoHost::Streamgg,
        VideoHost::Streamin,
        VideoHost::Streamain,
        VideoHost::Dubz,
        VideoHost::Streambug,
    ];
    for h in all {
        assert_eq!(VideoHost::from_str(&h.name()), Ok(h));
    }
    assert_eq!(VideoHost::Clippituser.name(), "clippituser");
}

#[test]
fn dubz_pages_are_fetched_from_the_mirror() {
    match fetch_plan("https://dubz.link/v/akm002").unwrap() {
        FetchPlan::WithoutBrowser(u) => assert_eq!(u, "https://dubz.cc/v/akm002"),
        _ => panic!("expected a plain request"),
    }
    match fetch_plan("https://dubz.co/v/x").unwrap() {
        FetchPlan::WithoutBrowser(u) => assert_eq!(u, "https://dubz.cc/v/x"),
        _ => panic!("expected a plain request"),
    }
    match fetch_plan("https://streamff.com/v/qagwUNlcwP").unwrap() {
        FetchPlan::WithBrowser { url, selector } => {
            assert_eq!(url, "https://streamff.com/v/qagwUNlcwP");
            assert_eq!(selector, "video");
        }
        _ => panic!("expected a browser"),
    }
}

#[test]
fn attributes_are_read_from_the_first_match() {
    let doc = "<html><body><video src=\"a.mp4\"></video><video src=\"b.mp4\"></video></body></html>";
    assert_eq!(scrape_html(doc, "video", "src"), Ok("a.mp4".to_string()));
    assert_eq!(
        scrape_html(doc, "div > p", "src"),
        Err(ScrapeError("No Element matching the CSS Selector present in the scraped site".to_string()))
    );
    assert_eq!(
        scrape_html(doc, "video[", "src"),
        Err(ScrapeError("The given String could not be parsed to a CSS selector".to_string()))
    );
    assert!(checked_scrape_html(doc, "video", "poster").is_none());
}

#[test]
fn clips_are_found_per_host() {
    let streamin = "<html><body><video src=\"/uploads/x.mp4\"></video></body></html>";
    assert_eq!(
        checked_scrape_from_html(streamin, &VideoHost::Streamin),
        Some(Ok("https://streamin.me/uploads/x.mp4".to_string()))
    );
    let dubz = "<html><body><video src=\"https://dubzalt.com/storage/videos/3ea24e.mp4\"></video></body></html>";
    assert_eq!(
        checked_scrape_from_html(dubz, &VideoHost::Dubz),
        Some(Ok("https://dubzalt.com/storage/videos/3ea24e.mp4".to_string()))
    );
    let clip = "<div id=\"player-container\" data-hd-file=\"https://c.com/v.mp4\"></div>";
    assert_eq!(
        checked_scrape_from_html(clip, &VideoHost::Clippituser),
        Some(Ok("https://c.com/v.mp4".to_string()))
    );
}

#[test]
fn mov_clips_are_refused() {
    assert_eq!(
        validate_scraped_url("https://a.com/v.mov"),
        Err(ScrapeError("Scrape Error: .mov files are not properly supported by telegram".to_string()))
    );
    assert_eq!(validate_scraped_url("https://a.com/v.mp4"), Ok("https://a.com/v.mp4".to_string()));
    assert_eq!(
        validate_scraped_url("no address"),
        Err(ScrapeError("relative URL without a base".to_string()))
    );
}

#[test]
fn retries_end_with_a_message() {
    let options = ScrapeRetryWithTimeoutOptions {
        timeout_ms: 1,
        max_retries: 5,
        url: String::from("https://streamin.me/v/9e5d5f6b"),
    };
    assert_eq!(
        options.exhausted_error().0,
        String::from("Scraping of url https://streamin.me/v/9e5d5f6b failed after 5 attempts with timeout 1")
    );
    assert!(matches!(options.after_failed_attempt(0, ScrapeError("x".to_string())), RetryStep::Wait(1)));
    assert!(matches!(options.after_failed_attempt(5, ScrapeError("x".to_string())), RetryStep::GiveUp(_)));
    assert_eq!(options.first_attempt(), Some(0));
    let err = || ScrapeError("x".to_string());
    assert!(matches!(
        options.after_attempt(0, ScrapeAttempt::Read(Err(err()))),
        ScrapeStep::Wait { wait_ms: 1, next: Some(1) }
    ));
    assert!(matches!(
        options.after_attempt(4, ScrapeAttempt::Read(Err(err()))),
        ScrapeStep::Wait { wait_ms: 1, next: None }
    ));
    assert!(matches!(
        options.after_attempt(2, ScrapeAttempt::FetchFailed(err())),
        ScrapeStep::Finish(Err(_))
    ));
    assert!(matches!(
        options.after_attempt(2, ScrapeAttempt::Read(Ok("v".to_string()))),
        ScrapeStep::Finish(Ok(ref v)) if v == "v"
    ));
    let none = ScrapeRetryWithTimeoutOptions { timeout_ms: 1, max_retries: 0, url: String::new() };
    assert_eq!(none.first_attempt(), None);
    let defaults = ScrapeRetryWithTimeoutOptions::for_url("u");
    assert_eq!((defaults.max_retries, defaults.timeout_ms), (12, 10_000));
}

#[test]
fn browser_values_lose_their_quotes() {
    assert_eq!(remove_quotes("\"https://files.catbox.moe/3cdo9q.mp4\""), "https://files.catbox.moe/3cdo9q.mp4");
}

#[test]
fn submission_pages_are_read() {
    assert_eq!(submission_page_url("1dl5kig"), "https://old.reddit.com/r/soccer/comments/1dl5kig/");
    assert_eq!(new_submissions_url(), "https://old.reddit.com/r/soccer/new/");
    let doc = "<a class=\"embed-comment\" data-title=\"  Slovakia 1 - [2] Ukraine - Roman Yaremchuk 80' \"></a>\
               <a class=\"title\" href=\"https://streamff.co/v/UqV95HVXAk\">x</a>";
    let s = checked_submission_from_html("1dl5kig", doc).unwrap().unwrap();
    assert_eq!(s.link, "https://streamff.co/v/UqV95HVXAk");
    assert_eq!(s.submission_id, "1dl5kig");
    assert_eq!(s.title, "Slovakia 1 - [2] Ukraine - Roman Yaremchuk 80'");
}

#[test]
fn listings_are_read() {
    let doc = "<div class=\"thing\" data-fullname=\"t3_a\"><a class=\"title\" href=\"https://streamin.me/v/1\">One - Two</a>\
               <time class=\"live-timestamp\" datetime=\"2024-06-21T15:00:00+00:00\"></time></div>\
               <div class=\"thing\" data-fullname=\"t3_b\"><a class=\"title\" href=\"https://dubz.co/v/2\">Three</a>\
               <time class=\"live-timestamp\" datetime=\"not a time\"></time></div>";
    let subs = submissions_from_html(doc).unwrap();
    assert_eq!(subs.len(), 2);
    assert_eq!(subs[0].id, "t3_a");
    assert_eq!(subs[0].title, "One - Two");
    assert_eq!(subs[0].url, "https://streamin.me/v/1");
    assert_eq!(subs[0].created_utc, 1718982000);
    assert_eq!(subs[1].created_utc, 0);
}

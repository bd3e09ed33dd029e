//! Reading values out of HTML documents with CSS selectors.
//!
//! The documents are held as their source text; the parsing and the
//! selection are those of the `scraper` crate.
use vstd::prelude::*;

use scraper::{Html, Selector};

use crate::scrape::{outcome, ScrapeError};

verus! {

/// What `scraper` finds when the document with source `document` is parsed
/// with `Html::parse_document` and searched with the selector group
/// `selector`, for the attribute `attribute` of the first match: `None`
/// where `Selector::parse` refuses the selector, `Some(None)` where nothing
/// matches, `Some(Some(None))` where the first match lacks the attribute, and
/// `Some(Some(Some(v)))` where its value is `v`.
pub uninterp spec fn first_attribute_in_document(
    document: Seq<char>,
    selector: Seq<char>,
    attribute: Seq<char>,
) -> Option<Option<Option<Seq<char>>>>;

/// What `scraper` finds for the attribute `attribute` of every element that
/// matches `selector` in the document with source `document`, in the order
/// in which `Html::select` yields them, that of the parsed tree's nodes
/// (`None` for an element that lacks it); `None` where
/// `Selector::parse` refuses the selector.
pub uninterp spec fn attributes_in_document(
    document: Seq<char>,
    selector: Seq<char>,
    attribute: Seq<char>,
) -> Option<Seq<Option<Seq<char>>>>;

/// The inner HTML that `scraper` serialises for every element that matches
/// `selector` in the document with source `document`, in the order in which
/// `Html::select` yields them, that of the parsed tree's nodes;
/// `None` where `Selector::parse` refuses the selector.
pub uninterp spec fn inner_html_in_document(document: Seq<char>, selector: Seq<char>) -> Option<
    Seq<Seq<char>>,
>;

/// The attribute `attribute` of the first element that matches `selector`.
///
/// Trusted: parses the document with `scraper::Html::parse_document` and the
/// selector with `scraper::Selector::parse`, takes the first element that
/// `Html::select` yields and reads the attribute with `Element::attr`. The
/// contract only names the outcome `first_attribute_in_document`.
#[verifier::external_body]
fn first_match_attribute(document: &str, selector: &str, attribute: &str) -> (r: Option<
    Option<Option<String>>,
>)
    ensures
        r.deep_view() == first_attribute_in_document(document@, selector@, attribute@),
{
    let html = Html::parse_document(document);
    let Ok(sel) = Selector::parse(selector) else { return None };
    let Some(element) = html.select(&sel).next() else { return Some(None) };
    match element.value().attr(attribute) {
        Some(value) => Some(Some(Some(value.to_owned()))),
        None => Some(Some(None)),
    }
}

/// The attribute `attribute` of every element that matches `selector`.
///
/// Trusted: parses with `scraper::Html::parse_document` and
/// `scraper::Selector::parse`, and reads `Element::attr` of every element
/// that `Html::select` yields. The contract only names the outcome
/// `attributes_in_document`.
#[verifier::external_body]
pub(crate) fn all_match_attributes(document: &str, selector: &str, attribute: &str) -> (r: Option<
    Vec<Option<String>>,
>)
    ensures
        r.deep_view() == attributes_in_document(document@, selector@, attribute@),
{
    let html = Html::parse_document(document);
    let Ok(sel) = Selector::parse(selector) else { return None };
    let mut found = Vec::new();
    for element in html.select(&sel) {
        match element.value().attr(attribute) {
            Some(value) => found.push(Some(value.to_owned())),
            None => found.push(None),
        }
    }
    Some(found)
}

/// The inner HTML of every element that matches `selector`.
///
/// Trusted: parses with `scraper::Html::parse_document` and
/// `scraper::Selector::parse`, and serialises every element that
/// `Html::select` yields with `ElementRef::inner_html`. The contract only
/// names the outcome `inner_html_in_document`.
#[verifier::external_body]
pub(crate) fn all_match_inner_html(document: &str, selector: &str) -> (r: Option<Vec<String>>)
    ensures
        r.deep_view() == inner_html_in_document(document@, selector@),
{
    let html = Html::parse_document(document);
    let Ok(sel) = Selector::parse(selector) else { return None };
    let mut found = Vec::new();
    for element in html.select(&sel) {
        found.push(element.inner_html());
    }
    Some(found)
}

/// The message of a selector that does not parse.
pub open spec fn invalid_selector_message() -> Seq<char> {
    "The given String could not be parsed to a CSS selector"@
}

/// The message of a selector that matches nothing.
pub open spec fn no_element_message() -> Seq<char> {
    "No Element matching the CSS Selector present in the scraped site"@
}

/// The lookup of `attribute` in the first match of `selector` ends without a
/// match that lacks the attribute (the one case that aborts the scrape).
pub open spec fn lookup_completes(document: Seq<char>, selector: Seq<char>, attribute: Seq<char>) -> bool {
    first_attribute_in_document(document, selector, attribute) != Some(
        Some(None::<Seq<char>>),
    )
}

/// The value of `attribute` of the first match of `selector`, or the message
/// of what went wrong.
pub open spec fn scraped_attribute(document: Seq<char>, selector: Seq<char>, attribute: Seq<char>) -> Result<
    Seq<char>,
    Seq<char>,
> {
    match first_attribute_in_document(document, selector, attribute) {
        None => Err(invalid_selector_message()),
        Some(None) => Err(no_element_message()),
        Some(Some(Some(v))) => Ok(v),
        Some(Some(None)) => Err(Seq::empty()),
    }
}

/// The error whose message is the text `message`.
pub fn scrape_error(message: &str) -> (r: ScrapeError)
    ensures
        r.0@ == message@,
{
    ScrapeError(message.to_owned())
}

/// The result of a lookup, where it completes.
fn result_of_lookup(look: Option<Option<Option<String>>>) -> (r: Option<Result<String, ScrapeError>>)
    ensures
        r is None <==> look.deep_view() == Some(Some(None::<Seq<char>>)),
        r matches Some(res) ==> outcome(res) == match look.deep_view() {
            None => Err(invalid_selector_message()),
            Some(None) => Err(no_element_message()),
            Some(Some(Some(v))) => Ok(v),
            Some(Some(None)) => Err(Seq::<char>::empty()),
        },
{
    match look {
        None => Some(Err(scrape_error("The given String could not be parsed to a CSS selector"))),
        Some(None) => Some(
            Err(scrape_error("No Element matching the CSS Selector present in the scraped site")),
        ),
        Some(Some(None)) => None,
        Some(Some(Some(v))) => Some(Ok(v)),
    }
}

/// The value of the attribute `attribute` of the first element of the
/// document that matches `selector`.
pub fn scrape_html(document: &str, selector: &str, attribute: &str) -> (r: Result<String, ScrapeError>)
    requires
        lookup_completes(document@, selector@, attribute@),
    ensures
        outcome(r) == scraped_attribute(document@, selector@, attribute@),
{
    let look = first_match_attribute(document, selector, attribute);
    match result_of_lookup(look) {
        Some(r) => r,
        None => {
            assert(false);
            Err(scrape_error(""))
        },
    }
}

/// The value of the attribute `attribute` of the first element of the
/// document that matches `selector`; `None` where that element lacks the
/// attribute, the case in which scraping aborts.
pub fn checked_scrape_html(document: &str, selector: &str, attribute: &str) -> (r: Option<
    Result<String, ScrapeError>,
>)
    ensures
        r is None <==> !lookup_completes(document@, selector@, attribute@),
        r matches Some(res) ==> outcome(res) == scraped_attribute(document@, selector@, attribute@),
{
    let look = first_match_attribute(document, selector, attribute);
    result_of_lookup(look)
}

} // verus!

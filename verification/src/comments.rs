//! Comments under a goal submission, and the replays posted among them.
use vstd::prelude::*;

use jsonpath_rust::JsonPath;
use regex::Regex;

use crate::text::{chars_of, concat_chars, contains, contains_chars, replace_all, replace_all_chars, text_of};

verus! {

/// A comment with the replies under it.
pub struct Comment {
    pub id: Option<String>,
    pub parent_id: Option<String>,
    pub body: Option<String>,
    pub body_html: Option<String>,
    pub replies: Vec<Comment>,
}

/// A comment followed, for each reply in order, by the reply and then by
/// everything that its own reading gives: so each reply appears twice, and
/// deeper replies as often as the nesting doubles them.
pub open spec fn flattened(c: Comment) -> Seq<Comment>
    decreases c, 1nat, 0nat,
{
    seq![c] + flattened_replies(c, c.replies@.len())
}

/// The part of `flattened(c)` that its first `k` replies contribute.
pub open spec fn flattened_replies(c: Comment, k: nat) -> Seq<Comment>
    decreases c, 0nat, k,
{
    if k == 0 || k > c.replies@.len() {
        seq![]
    } else {
        let r = c.replies@[k - 1];
        proof {
            assert(decreases_to!(c => c.replies));
            assert(decreases_to!(c.replies => c.replies@));
            assert(decreases_to!(c.replies@ => c.replies@[k - 1]));
        }
        flattened_replies(c, (k - 1) as nat) + seq![r] + flattened(r)
    }
}

/// The comments a reference sequence points to.
pub open spec fn pointed(v: Seq<&Comment>) -> Seq<Comment> {
    Seq::new(v.len(), |i: int| *v[i])
}

/// The comment tree read out into a list.
pub fn flatten_comment_with_replies(comment_tree: &Comment) -> (r: Vec<&Comment>)
    ensures
        pointed(r@) == flattened(*comment_tree),
    decreases comment_tree,
{
    let mut result: Vec<&Comment> = Vec::new();
    result.push(comment_tree);
    let ghost c = *comment_tree;
    assert(pointed(result@) =~= seq![c] + flattened_replies(c, 0));
    for i in 0..comment_tree.replies.len()
        invariant
            c == *comment_tree,
            pointed(result@) == seq![c] + flattened_replies(c, i as nat),
    {
        let reply = &comment_tree.replies[i];
        proof {
            assert(decreases_to!(comment_tree => comment_tree.replies));
            assert(decreases_to!(comment_tree.replies => comment_tree.replies@));
            assert(decreases_to!(comment_tree.replies@ => comment_tree.replies@[i as int]));
        }
        let mut below = flatten_comment_with_replies(reply);
        let ghost before = pointed(result@);
        let ghost below_view = pointed(below@);
        result.push(reply);
        result.append(&mut below);
        assert(pointed(result@) =~= before + seq![*reply] + below_view);
        assert(flattened_replies(c, (i + 1) as nat) == flattened_replies(c, i as nat) + seq![
            c.replies@[i as int],
        ] + flattened(c.replies@[i as int]));
        assert(pointed(result@) =~= seq![c] + flattened_replies(c, (i + 1) as nat));
    }
    result
}

/// The text by which the moderator's comment collecting replays is known.
pub open spec fn replay_marker() -> Seq<char> {
    "Mirrors / Alternative Angles"@
}

/// The comment is the one that collects replays.
pub open spec fn collects_replays(c: Comment) -> bool {
    c.body matches Some(b) && contains(b@, replay_marker())
}

/// Whether the comment is the one that collects replays.
pub fn is_aa_comment(comment: &Comment) -> (r: bool)
    ensures
        r == collects_replays(*comment),
{
    match &comment.body {
        None => false,
        Some(body) => {
            let b = chars_of(body.as_str());
            let m = chars_of("Mirrors / Alternative Angles");
            contains_chars(b.as_slice(), m.as_slice())
        },
    }
}

// ---------------------------------------------------------------------------
// Addresses in comments
/// What `regex` reports for the pattern `pattern` and the text `text`:
/// `None` where `Regex::new` refuses the pattern, else whether the pattern
/// matches somewhere in the text.
pub uninterp spec fn regex_match(pattern: Seq<char>, text: Seq<char>) -> Option<bool>;

/// Whether the regular expression `pattern` matches somewhere in `text`.
///
/// Trusted: compiles the pattern with `regex::Regex::new` and calls
/// `Regex::is_match`; the contract only names the outcome `regex_match`.
#[verifier::external_body]
fn regex_is_match(pattern: &str, text: &str) -> (r: Option<bool>)
    ensures
        r == regex_match(pattern@, text@),
{
    match Regex::new(pattern) {
        Ok(re) => Some(re.is_match(text)),
        Err(_) => None,
    }
}

/// The pattern of a web address.
pub open spec fn url_pattern() -> Seq<char> {
    "(www\\.)?[-a-zA-Z0-9@:%._\\+~#=]{2,256}\\.[a-z]{2,4}\\b([-a-zA-Z0-9@:%_\\+.~#?&//=]*)"@
}

/// The text holds a web address.
pub open spec fn mentions_url(text: Seq<char>) -> bool {
    regex_match(url_pattern(), text) == Some(true)
}

/// Whether `text` holds a web address.
pub fn contains_url(text: &str) -> (r: bool)
    ensures
        r == mentions_url(text@),
{
    let pattern = "(www\\.)?[-a-zA-Z0-9@:%._\\+~#=]{2,256}\\.[a-z]{2,4}\\b([-a-zA-Z0-9@:%_\\+.~#?&//=]*)";
    match regex_is_match(pattern, text) {
        Some(true) => true,
        _ => false,
    }
}

// ---------------------------------------------------------------------------
// The body of a comment
/// What `serde_json` and `jsonpath_rust` find in the JSON text `json` at the
/// path `path`: `None` where the text is no JSON or the path is refused,
/// else each value found, in order, as a string where it is one.
pub uninterp spec fn json_path_query(json: Seq<char>, path: Seq<char>) -> Option<
    Seq<Option<Seq<char>>>,
>;

/// The values at `path` in the JSON text `json`.
///
/// Trusted: parses the text with `serde_json::from_str` and queries it with
/// `jsonpath_rust`'s `JsonPath::query`, reading each value with
/// `Value::as_str`; the contract only names the outcome `json_path_query`.
#[verifier::external_body]
fn query_json_strings(json: &str, path: &str) -> (r: Option<Vec<Option<String>>>)
    ensures
        r.deep_view() == json_path_query(json@, path@),
{
    let Ok(value) = serde_json::from_str::<serde_json::Value>(json) else { return None };
    let Ok(found) = value.query(path) else { return None };
    let mut out = Vec::new();
    for v in found {
        match v.as_str() {
            Some(s) => out.push(Some(s.to_owned())),
            None => out.push(None),
        }
    }
    Some(out)
}

/// The text with HTML character references decoded, as
/// `html_escape::decode_html_entities` gives it.
pub uninterp spec fn html_entities_decoded(text: Seq<char>) -> Seq<char>;

/// The text with its HTML character references decoded.
///
/// Trusted: calls `html_escape::decode_html_entities`; the contract only
/// names the outcome `html_entities_decoded`.
#[verifier::external_body]
fn decode_entities(text: &str) -> (r: String)
    ensures
        r@ == html_entities_decoded(text@),
{
    html_escape::decode_html_entities(text).into_owned()
}

/// Where in the JSON of a comment's page the comment's HTML body stands.
pub open spec fn body_path() -> Seq<char> {
    "$[1].data.children[0].data.body_html"@
}

/// A comment's HTML with its wrapping markup removed: every
/// `<div class="md">`, `</div>`, `<p>` and `</p>`, in that order.
pub open spec fn unwrapped_body(html: Seq<char>) -> Seq<char> {
    let a = replace_all(html, "<div class=\"md\">"@, Seq::empty());
    let b = replace_all(a, "</div>"@, Seq::empty());
    let c = replace_all(b, "<p>"@, Seq::empty());
    replace_all(c, "</p>"@, Seq::empty())
}

/// Reading the body out of the JSON does not abort: the text is JSON and
/// the path is accepted.
pub open spec fn body_query_completes(json: Seq<char>) -> bool {
    json_path_query(json, body_path()) is Some
}

/// The body of the comment that the JSON of its page holds: the first value
/// at the body's path, where it is a string, decoded and unwrapped.
pub open spec fn comment_body(json: Seq<char>) -> Option<Seq<char>> {
    match json_path_query(json, body_path()) {
        Some(found) => if found.len() > 0 {
            match found[0] {
                Some(html) => Some(unwrapped_body(html_entities_decoded(html))),
                None => None,
            }
        } else {
            None
        },
        None => None,
    }
}

/// The HTML body with its wrapping markup removed.
fn unwrap_body(html: &str) -> (r: String)
    ensures
        r@ == unwrapped_body(html@),
{
    let empty: Vec<char> = Vec::new();
    let h = chars_of(html);
    let div = chars_of("<div class=\"md\">");
    let div_end = chars_of("</div>");
    let p = chars_of("<p>");
    let p_end = chars_of("</p>");
    proof {
        reveal_strlit("<div class=\"md\">");
        reveal_strlit("</div>");
        reveal_strlit("<p>");
        reveal_strlit("</p>");
    }
    assert(empty@ =~= Seq::<char>::empty());
    let a = replace_all_chars(h.as_slice(), div.as_slice(), empty.as_slice());
    let b = replace_all_chars(a.as_slice(), div_end.as_slice(), empty.as_slice());
    let c = replace_all_chars(b.as_slice(), p.as_slice(), empty.as_slice());
    let d = replace_all_chars(c.as_slice(), p_end.as_slice(), empty.as_slice());
    text_of(d.as_slice())
}

/// The body of the comment that the JSON of its page holds; `None` outside
/// where reading aborts: where the text is no JSON.
pub fn checked_comment_body_from_json(json: &str) -> (r: Option<Option<String>>)
    ensures
        r is None <==> !body_query_completes(json@),
        r matches Some(body) ==> body.deep_view() == comment_body(json@),
{
    let found = match query_json_strings(json, "$[1].data.children[0].data.body_html") {
        None => return None,
        Some(found) => found,
    };
    if found.len() == 0 {
        return Some(None);
    }
    assert(found.deep_view()[0] == found@[0].deep_view());
    match &found[0] {
        None => Some(None),
        Some(html) => {
            let decoded = decode_entities(html.as_str());
            Some(Some(unwrap_body(decoded.as_str())))
        },
    }
}

/// The body of the comment that the JSON of its page holds.
pub fn comment_body_from_json(json: &str) -> (r: Option<String>)
    requires
        body_query_completes(json@),
    ensures
        r.deep_view() == comment_body(json@),
{
    match checked_comment_body_from_json(json) {
        Some(body) => body,
        None => {
            assert(false);
            None
        },
    }
}

/// The address of the JSON of the page of comment `comment_id` under the
/// submission `submission_id`.
pub open spec fn comment_json_address(submission_id: Seq<char>, comment_id: Seq<char>) -> Seq<char> {
    "https://old.reddit.com/r/soccer/comments/"@ + submission_id + "//"@ + comment_id + ".json"@
}

/// The address of the JSON of the page of a comment.
pub fn comment_json_url(submission_id: &str, comment_id: &str) -> (r: String)
    ensures
        r@ == comment_json_address(submission_id@, comment_id@),
{
    let a = chars_of("https://old.reddit.com/r/soccer/comments/");
    let b = chars_of(submission_id);
    let c = chars_of("//");
    let d = chars_of(comment_id);
    let e = chars_of(".json");
    let m = concat_chars(a.as_slice(), b.as_slice());
    let m = concat_chars(m.as_slice(), c.as_slice());
    let m = concat_chars(m.as_slice(), d.as_slice());
    let m = concat_chars(m.as_slice(), e.as_slice());
    text_of(m.as_slice())
}

} // verus!

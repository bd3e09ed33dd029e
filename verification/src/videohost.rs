//! The video hosts whose clips the bot knows how to extract, and how a link
//! is recognised as belonging to one of them.
use vstd::prelude::*;

use crate::text::{
    ascii_lowercase, before_first, before_first_char, chars_of, is_ascii_text, lowercase, replace_all,
    replace_all_chars,
    same_chars, to_lowercase_chars, lemma_before_first_absent, lemma_missing_char_not_contained,
    lemma_replace_all_absent, lemma_before_first_of_joined, lemma_occurrence_starts,
    lemma_replace_all_keeps_prefix, lemma_replace_all_leading, occurs_at,
};

verus! {

/// A site that hosts goal clips.
#[derive(Debug, Clone, Copy, PartialEq, Eq, Structural)]
pub enum VideoHost {
    Streamwo,
    Streamja,
    Streamye,
    Streamable,
    Imgtc,
    Clippituser,
    Vimeo,
    Streamvi,
    Juststream,
    Streamff,
    Streamgg,
    Streamin,
    Streamain,
    Dubz,
    Streambug,
}

/// The error of a link that belongs to none of the known hosts.
#[derive(Debug, Clone, Copy, PartialEq, Eq, Structural)]
pub struct UnkownVideoHostError;

/// The name of a host: its second-level domain, and how it is displayed.
pub open spec fn host_name(h: VideoHost) -> Seq<char> {
    match h {
        VideoHost::Streamwo => "streamwo"@,
        VideoHost::Streamja => "streamja"@,
        VideoHost::Streamye => "streamye"@,
        VideoHost::Streamable => "streamable"@,
        VideoHost::Imgtc => "imgtc"@,
        VideoHost::Clippituser => "clippituser"@,
        VideoHost::Vimeo => "vimeo"@,
        VideoHost::Streamvi => "streamvi"@,
        VideoHost::Juststream => "juststream"@,
        VideoHost::Streamff => "streamff"@,
        VideoHost::Streamgg => "streamgg"@,
        VideoHost::Streamin => "streamin"@,
        VideoHost::Streamain => "streamain"@,
        VideoHost::Dubz => "dubz"@,
        VideoHost::Streambug => "streambug"@,
    }
}

/// The host whose name is `d`, if any.
pub open spec fn host_for_domain(d: Seq<char>) -> Option<VideoHost> {
    if d == "streamwo"@ {
        Some(VideoHost::Streamwo)
    } else if d == "streamja"@ {
        Some(VideoHost::Streamja)
    } else if d == "streamye"@ {
        Some(VideoHost::Streamye)
    } else if d == "streamable"@ {
        Some(VideoHost::Streamable)
    } else if d == "imgtc"@ {
        Some(VideoHost::Imgtc)
    } else if d == "clippituser"@ {
        Some(VideoHost::Clippituser)
    } else if d == "vimeo"@ {
        Some(VideoHost::Vimeo)
    } else if d == "streamvi"@ {
        Some(VideoHost::Streamvi)
    } else if d == "juststream"@ {
        Some(VideoHost::Juststream)
    } else if d == "streamff"@ {
        Some(VideoHost::Streamff)
    } else if d == "streamgg"@ {
        Some(VideoHost::Streamgg)
    } else if d == "streamin"@ {
        Some(VideoHost::Streamin)
    } else if d == "dubz"@ {
        Some(VideoHost::Dubz)
    } else if d == "streambug"@ {
        Some(VideoHost::Streambug)
    } else if d == "streamain"@ {
        Some(VideoHost::Streamain)
    } else {
        None
    }
}

/// The domain label of a lower-case link: the link with every `http://`,
/// then every `https://`, then every `www.` removed, cut at its first dot.
pub open spec fn domain_of(lower: Seq<char>) -> Seq<char> {
    let no_http = replace_all(lower, "http://"@, Seq::empty());
    let no_https = replace_all(no_http, "https://"@, Seq::empty());
    let no_www = replace_all(no_https, "www."@, Seq::empty());
    before_first(no_www, '.')
}

/// The host of a link, read from the link's lower-case form.
pub open spec fn host_of_lowercase(lower: Seq<char>) -> Option<VideoHost> {
    host_for_domain(domain_of(lower))
}

/// The host of a link as `VideoHost::from_str` reads it.
pub open spec fn host_of(input: Seq<char>) -> Option<VideoHost> {
    host_of_lowercase(lowercase(input))
}

/// The host of a link made of ASCII characters alone, read from its ASCII
/// lower-case form.
pub open spec fn ascii_host_of(input: Seq<char>) -> Option<VideoHost> {
    host_of_lowercase(input.map_values(|c: char| ascii_lowercase(c)))
}

/// Whether the characters `d` spell `name`.
fn spells(d: &[char], name: &str) -> (r: bool)
    ensures
        r == (d@ == name@),
{
    let n = chars_of(name);
    same_chars(d, n.as_slice())
}

impl VideoHost {
    /// The host whose name is the domain label `d`.
    pub fn from_domain(d: &[char]) -> (r: Option<VideoHost>)
        ensures
            r == host_for_domain(d@),
    {
        if spells(d, "streamwo") {
            Some(VideoHost::Streamwo)
        } else if spells(d, "streamja") {
            Some(VideoHost::Streamja)
        } else if spells(d, "streamye") {
            Some(VideoHost::Streamye)
        } else if spells(d, "streamable") {
            Some(VideoHost::Streamable)
        } else if spells(d, "imgtc") {
            Some(VideoHost::Imgtc)
        } else if spells(d, "clippituser") {
            Some(VideoHost::Clippituser)
        } else if spells(d, "vimeo") {
            Some(VideoHost::Vimeo)
        } else if spells(d, "streamvi") {
            Some(VideoHost::Streamvi)
        } else if spells(d, "juststream") {
            Some(VideoHost::Juststream)
        } else if spells(d, "streamff") {
            Some(VideoHost::Streamff)
        } else if spells(d, "streamgg") {
            Some(VideoHost::Streamgg)
        } else if spells(d, "streamin") {
            Some(VideoHost::Streamin)
        } else if spells(d, "dubz") {
            Some(VideoHost::Dubz)
        } else if spells(d, "streambug") {
            Some(VideoHost::Streambug)
        } else if spells(d, "streamain") {
            Some(VideoHost::Streamain)
        } else {
            None
        }
    }

    /// The host of a link that is already in lower case: scheme prefixes and
    /// `www.` are dropped, and the label before the first dot names the host.
    pub fn from_lowercase(lower: &[char]) -> (r: Option<VideoHost>)
        ensures
            r == host_of_lowercase(lower@),
    {
        let http = chars_of("http://");
        let https = chars_of("https://");
        let www = chars_of("www.");
        let empty: Vec<char> = Vec::new();
        proof {
            reveal_strlit("http://");
            reveal_strlit("https://");
            reveal_strlit("www.");
        }
        let a = replace_all_chars(lower, http.as_slice(), empty.as_slice());
        let b = replace_all_chars(a.as_slice(), https.as_slice(), empty.as_slice());
        let c = replace_all_chars(b.as_slice(), www.as_slice(), empty.as_slice());
        assert(empty@ =~= Seq::<char>::empty());
        let d = before_first_char(c.as_slice(), '.');
        VideoHost::from_domain(d.as_slice())
    }

    /// The host that a link points to, read case-insensitively.
    pub fn from_str(input: &str) -> (r: Result<VideoHost, UnkownVideoHostError>)
        ensures
            r == match host_of(input@) {
                Some(h) => Ok::<VideoHost, UnkownVideoHostError>(h),
                None => Err(UnkownVideoHostError),
            },
            is_ascii_text(input@) ==> r == match ascii_host_of(input@) {
                Some(h) => Ok::<VideoHost, UnkownVideoHostError>(h),
                None => Err(UnkownVideoHostError),
            },
    {
        let chars = chars_of(input);
        let lower = to_lowercase_chars(chars.as_slice());
        match VideoHost::from_lowercase(lower.as_slice()) {
            Some(h) => Ok(h),
            None => Err(UnkownVideoHostError),
        }
    }

    /// The host's name, as it is displayed.
    pub fn name(&self) -> (r: String)
        ensures
            r@ == host_name(*self),
    {
        match self {
            VideoHost::Streamwo => "streamwo".to_owned(),
            VideoHost::Streamja => "streamja".to_owned(),
            VideoHost::Streamye => "streamye".to_owned(),
            VideoHost::Streamable => "streamable".to_owned(),
            VideoHost::Imgtc => "imgtc".to_owned(),
            VideoHost::Clippituser => "clippituser".to_owned(),
            VideoHost::Vimeo => "vimeo".to_owned(),
            VideoHost::Streamvi => "streamvi".to_owned(),
            VideoHost::Juststream => "juststream".to_owned(),
            VideoHost::Streamff => "streamff".to_owned(),
            VideoHost::Streamgg => "streamgg".to_owned(),
            VideoHost::Streamin => "streamin".to_owned(),
            VideoHost::Streamain => "streamain".to_owned(),
            VideoHost::Dubz => "dubz".to_owned(),
            VideoHost::Streambug => "streambug".to_owned(),
        }
    }
}

/// Sequences that differ at an index are different.
proof fn lemma_differ_at(a: Seq<char>, b: Seq<char>, k: int)
    requires
        0 <= k < a.len(),
        k < b.len(),
        a[k] != b[k],
    ensures
        a != b,
{
}

/// A host's name, read as an already lower-cased link, gives the host back:
/// displaying a host and parsing the display agree.
pub proof fn lemma_name_gives_host(h: VideoHost)
    ensures
        host_for_domain(host_name(h)) == Some(h),
        host_of_lowercase(host_name(h)) == Some(h),
{
    reveal_strlit("streamwo");
    reveal_strlit("streamja");
    reveal_strlit("streamye");
    reveal_strlit("streamable");
    reveal_strlit("imgtc");
    reveal_strlit("clippituser");
    reveal_strlit("vimeo");
    reveal_strlit("streamvi");
    reveal_strlit("juststream");
    reveal_strlit("streamff");
    reveal_strlit("streamgg");
    reveal_strlit("streamin");
    reveal_strlit("streamain");
    reveal_strlit("dubz");
    reveal_strlit("streambug");
    reveal_strlit("http://");
    reveal_strlit("https://");
    reveal_strlit("www.");
    let n = host_name(h);
    assert(forall|i: int| 0 <= i < n.len() ==> n[i] != ':' && n[i] != '.');
    assert("http://"@[4] == ':');
    assert("https://"@[5] == ':');
    assert("www."@[3] == '.');
    lemma_missing_char_not_contained(n, "http://"@, ':');
    lemma_replace_all_absent(n, "http://"@, Seq::empty());
    lemma_missing_char_not_contained(n, "https://"@, ':');
    lemma_replace_all_absent(n, "https://"@, Seq::empty());
    lemma_missing_char_not_contained(n, "www."@, '.');
    lemma_replace_all_absent(n, "www."@, Seq::empty());
    lemma_before_first_absent(n, '.');
    assert(domain_of(n) == n);
    lemma_differ_at("streamwo"@, "streamja"@, 6);
    lemma_differ_at("streamwo"@, "streamye"@, 6);
    lemma_differ_at("streamwo"@, "streamvi"@, 6);
    lemma_differ_at("streamwo"@, "streamff"@, 6);
    lemma_differ_at("streamwo"@, "streamgg"@, 6);
    lemma_differ_at("streamwo"@, "streamin"@, 6);
    lemma_differ_at("streamja"@, "streamye"@, 6);
    lemma_differ_at("streamja"@, "streamvi"@, 6);
    lemma_differ_at("streamja"@, "streamff"@, 6);
    lemma_differ_at("streamja"@, "streamgg"@, 6);
    lemma_differ_at("streamja"@, "streamin"@, 6);
    lemma_differ_at("streamye"@, "streamvi"@, 6);
    lemma_differ_at("streamye"@, "streamff"@, 6);
    lemma_differ_at("streamye"@, "streamgg"@, 6);
    lemma_differ_at("streamye"@, "streamin"@, 6);
    lemma_differ_at("streamvi"@, "streamff"@, 6);
    lemma_differ_at("streamvi"@, "streamgg"@, 6);
    lemma_differ_at("streamvi"@, "streamin"@, 6);
    lemma_differ_at("streamff"@, "streamgg"@, 6);
    lemma_differ_at("streamff"@, "streamin"@, 6);
    lemma_differ_at("streamgg"@, "streamin"@, 6);
    lemma_differ_at("streamable"@, "juststream"@, 0);
    lemma_differ_at("imgtc"@, "vimeo"@, 0);
    lemma_differ_at("streambug"@, "streamain"@, 6);
}

/// Displaying a host and reading the display back gives the host:
/// `VideoHost::from_str` on a host's name, which is ASCII, gives that host.
pub proof fn lemma_from_str_reads_names(h: VideoHost)
    ensures
        is_ascii_text(host_name(h)),
        ascii_host_of(host_name(h)) == Some(h),
{
    reveal_strlit("streamwo");
    reveal_strlit("streamja");
    reveal_strlit("streamye");
    reveal_strlit("streamable");
    reveal_strlit("imgtc");
    reveal_strlit("clippituser");
    reveal_strlit("vimeo");
    reveal_strlit("streamvi");
    reveal_strlit("juststream");
    reveal_strlit("streamff");
    reveal_strlit("streamgg");
    reveal_strlit("streamin");
    reveal_strlit("streamain");
    reveal_strlit("dubz");
    reveal_strlit("streambug");
    let n = host_name(h);
    assert(forall|i: int| 0 <= i < n.len() ==> 'a' <= #[trigger] n[i] && n[i] <= 'z');
    assert(n.map_values(|c: char| ascii_lowercase(c)) =~= n);
    lemma_name_gives_host(h);
}


/// The link scheme: `https://` for a secure link, else `http://`.
pub open spec fn scheme(secure: bool) -> Seq<char> {
    if secure {
        "https://"@
    } else {
        "http://"@
    }
}

/// `www.` where `www` holds, else nothing.
pub open spec fn www_prefix(www: bool) -> Seq<char> {
    if www {
        "www."@
    } else {
        Seq::empty()
    }
}

/// No occurrence of `p` (at least two characters) begins in `x`, followed by
/// anything, where `x` holds no `p[0]` immediately followed by `p[1]` and
/// does not end in `p[0]`.
proof fn lemma_no_occurrence_in(x: Seq<char>, y: Seq<char>, p: Seq<char>)
    requires
        p.len() >= 2,
        forall|i: int| 0 <= i < x.len() - 1 ==> !(x[i] == p[0] && #[trigger] x[i + 1] == p[1]),
        x.len() > 0 ==> x.last() != p[0],
    ensures
        forall|i: int| 0 <= i < x.len() ==> !occurs_at(x + y, p, i),
{
    assert forall|i: int| 0 <= i < x.len() implies !occurs_at(x + y, p, i) by {
        if occurs_at(x + y, p, i) {
            lemma_occurrence_starts(x + y, p, i);
            assert((x + y)[i] == x[i]);
            if i < x.len() - 1 {
                assert((x + y)[i + 1] == x[i + 1]);
            }
        }
    }
}

/// A link made of a scheme (`http://` or `https://`), an optional `www.`,
/// a host's name, a dot and any rest is read as that host.
pub proof fn lemma_links_name_their_host(h: VideoHost, secure: bool, www: bool, rest: Seq<char>)
    ensures
        host_of_lowercase(scheme(secure) + www_prefix(www) + host_name(h) + "."@ + rest) == Some(h),
{
    reveal_strlit("streamwo");
    reveal_strlit("streamja");
    reveal_strlit("streamye");
    reveal_strlit("streamable");
    reveal_strlit("imgtc");
    reveal_strlit("clippituser");
    reveal_strlit("vimeo");
    reveal_strlit("streamvi");
    reveal_strlit("juststream");
    reveal_strlit("streamff");
    reveal_strlit("streamgg");
    reveal_strlit("streamin");
    reveal_strlit("streamain");
    reveal_strlit("dubz");
    reveal_strlit("streambug");
    reveal_strlit("http://");
    reveal_strlit("https://");
    reveal_strlit("www.");
    reveal_strlit(".");
    let http = "http://"@;
    let https = "https://"@;
    let w3 = "www."@;
    let n = host_name(h);
    let m = www_prefix(www);
    let dot = seq!['.'];
    assert("."@ =~= dot);
    // The name holds no `h`, no `.`, no `ww`, and does not end in `w`.
    assert(forall|i: int| 0 <= i < n.len() ==> n[i] != 'h' && n[i] != '.');
    assert(forall|i: int| 0 <= i < n.len() - 1 ==> !(n[i] == 'w' && #[trigger] n[i + 1] == 'w'));
    assert(n.len() > 0 && n.last() != 'w');
    let core = n + dot;
    assert(forall|i: int| 0 <= i < core.len() ==> core[i] != 'h') by {
        assert forall|i: int| 0 <= i < core.len() implies core[i] != 'h' by {
            if i < n.len() {
                assert(core[i] == n[i]);
            }
        }
    }
    let mc = m + core;
    assert(forall|i: int| 0 <= i < mc.len() ==> mc[i] != 'h') by {
        assert forall|i: int| 0 <= i < mc.len() implies mc[i] != 'h' by {
            if i < m.len() {
                assert(mc[i] == m[i]);
            } else {
                assert(mc[i] == core[i - m.len()]);
            }
        }
    }
    assert(forall|i: int| 0 <= i < core.len() - 1 ==> !(core[i] == 'w' && #[trigger] core[i + 1] == 'w')) by {
        assert forall|i: int| 0 <= i < core.len() - 1 implies !(core[i] == 'w' && #[trigger] core[i + 1] == 'w') by {
            assert(core[i] == n[i]);
            if i + 1 < n.len() {
                assert(core[i + 1] == n[i + 1]);
            }
        }
    }
    assert(core.last() == '.');
    let link = scheme(secure) + m + n + "."@ + rest;
    // Removing `http://`.
    let a = replace_all(mc + rest, http, Seq::empty());
    assert forall|i: int| 0 <= i < mc.len() implies !occurs_at(mc + rest, http, i) by {
        if occurs_at(mc + rest, http, i) {
            lemma_occurrence_starts(mc + rest, http, i);
            assert((mc + rest)[i] == mc[i]);
        }
    }
    lemma_replace_all_keeps_prefix(mc, rest, http, Seq::empty());
    let r1 = replace_all(rest, http, Seq::empty());
    let after_http = if secure {
        https + mc + r1
    } else {
        mc + r1
    };
    if secure {
        let x = https + mc;
        assert forall|i: int| 0 <= i < x.len() implies !occurs_at(x + rest, http, i) by {
            if occurs_at(x + rest, http, i) {
                lemma_occurrence_starts(x + rest, http, i);
                if i == 0 {
                    assert((x + rest).subrange(0, 7)[4] == (x + rest)[4]);
                    assert((x + rest)[4] == 's');
                } else if i < 8 {
                    assert((x + rest)[i] == https[i]);
                } else {
                    assert((x + rest)[i] == mc[i - 8]);
                }
            }
        }
        lemma_replace_all_keeps_prefix(x, rest, http, Seq::empty());
        assert(link =~= x + rest);
        assert(replace_all(link, http, Seq::empty()) == x + r1);
        assert(x + r1 =~= after_http);
    } else {
        assert(link =~= http + (mc + rest));
        lemma_replace_all_leading(http, mc + rest, Seq::empty());
        assert(Seq::<char>::empty() + (mc + r1) =~= after_http);
    }
    // Removing `https://`.
    assert forall|i: int| 0 <= i < mc.len() implies !occurs_at(mc + r1, https, i) by {
        if occurs_at(mc + r1, https, i) {
            lemma_occurrence_starts(mc + r1, https, i);
            assert((mc + r1)[i] == mc[i]);
        }
    }
    lemma_replace_all_keeps_prefix(mc, r1, https, Seq::empty());
    let r2 = replace_all(r1, https, Seq::empty());
    if secure {
        assert(after_http =~= https + (mc + r1));
        lemma_replace_all_leading(https, mc + r1, Seq::empty());
        assert(Seq::<char>::empty() + (mc + r2) =~= mc + r2);
    }
    assert(replace_all(after_http, https, Seq::empty()) == mc + r2);
    // Removing `www.`.
    lemma_no_occurrence_in(core, r2, w3);
    lemma_replace_all_keeps_prefix(core, r2, w3, Seq::empty());
    let r3 = replace_all(r2, w3, Seq::empty());
    if www {
        assert(mc + r2 =~= w3 + (core + r2));
        lemma_replace_all_leading(w3, core + r2, Seq::empty());
        assert(Seq::<char>::empty() + (core + r3) =~= core + r3);
    } else {
        assert(mc + r2 =~= core + r2);
    }
    assert(replace_all(mc + r2, w3, Seq::empty()) == core + r3);
    // The label before the first dot is the name.
    assert(!n.contains('.'));
    assert(core + r3 =~= n + seq!['.'] + r3);
    lemma_before_first_of_joined(n, '.', r3);
    assert(domain_of(link) == n);
    lemma_name_gives_host(h);
}

/// The same links in any ASCII letter case are read as that host by
/// `VideoHost::from_str`, whose result on an ASCII link is `ascii_host_of`.
pub proof fn lemma_links_name_their_host_in_any_case(
    h: VideoHost,
    secure: bool,
    www: bool,
    rest: Seq<char>,
)
    ensures
        ascii_host_of(scheme(secure) + www_prefix(www) + host_name(h) + "."@ + rest) == Some(h),
{
    reveal_strlit("streamwo");
    reveal_strlit("streamja");
    reveal_strlit("streamye");
    reveal_strlit("streamable");
    reveal_strlit("imgtc");
    reveal_strlit("clippituser");
    reveal_strlit("vimeo");
    reveal_strlit("streamvi");
    reveal_strlit("juststream");
    reveal_strlit("streamff");
    reveal_strlit("streamgg");
    reveal_strlit("streamin");
    reveal_strlit("streamain");
    reveal_strlit("dubz");
    reveal_strlit("streambug");
    reveal_strlit("http://");
    reveal_strlit("https://");
    reveal_strlit("www.");
    reveal_strlit(".");
    let prefix = scheme(secure) + www_prefix(www) + host_name(h) + "."@;
    let link = prefix + rest;
    let f = |c: char| ascii_lowercase(c);
    assert(forall|i: int| 0 <= i < prefix.len() ==> !('A' <= #[trigger] prefix[i] && prefix[i] <= 'Z'));
    let lowered_rest = rest.map_values(f);
    assert(link.map_values(f) =~= prefix + lowered_rest);
    lemma_links_name_their_host(h, secure, www, lowered_rest);
}

} // verus!

//! Character-level text operations with exact specifications.
//!
//! Every operation works on sequences of Unicode scalar values and is
//! specified by a spec function over `Seq<char>` that states what the
//! corresponding operation of `str` does.
use vstd::prelude::*;

verus! {

/// The Unicode `White_Space` property, which is what `char::is_whitespace`,
/// `str::split_whitespace` and `str::trim` go by.
pub open spec fn is_whitespace(c: char) -> bool {
    ||| ('\u{9}' <= c && c <= '\u{d}')
    ||| c == ' '
    ||| c == '\u{85}'
    ||| c == '\u{a0}'
    ||| c == '\u{1680}'
    ||| ('\u{2000}' <= c && c <= '\u{200a}')
    ||| c == '\u{2028}'
    ||| c == '\u{2029}'
    ||| c == '\u{202f}'
    ||| c == '\u{205f}'
    ||| c == '\u{3000}'
}

/// Whether `c` is a whitespace character.
pub fn char_is_whitespace(c: char) -> (r: bool)
    ensures
        r == is_whitespace(c),
{
    ('\u{9}' <= c && c <= '\u{d}') || c == ' ' || c == '\u{85}' || c == '\u{a0}' || c
        == '\u{1680}' || ('\u{2000}' <= c && c <= '\u{200a}') || c == '\u{2028}' || c
        == '\u{2029}' || c == '\u{202f}' || c == '\u{205f}' || c == '\u{3000}'
}

/// The views of a sequence of character vectors.
pub open spec fn views(v: Seq<Vec<char>>) -> Seq<Seq<char>> {
    Seq::new(v.len(), |i: int| v[i]@)
}

/// The characters of `s`, in order.
pub fn chars_of(s: &str) -> (r: Vec<char>)
    ensures
        r@ == s@,
{
    let mut r: Vec<char> = Vec::new();
    for c in it: s.chars()
        invariant
            it.seq() == s@,
            r@ == it.seq().take(it.index() as int),
    {
        r.push(c);
    }
    r
}

/// The string made of the characters `chars`.
///
/// Trusted: collects the characters with std's `FromIterator<&char> for
/// String`, whose documentation says the string holds the characters in order.
#[verifier::external_body]
pub(crate) fn text_of(chars: &[char]) -> (r: String)
    ensures
        r@ == chars@,
{
    chars.iter().collect()
}

/// The strings made of each character vector of `v`.
pub fn texts_of(v: &Vec<Vec<char>>) -> (r: Vec<String>)
    ensures
        r@.len() == v@.len(),
        forall|i: int| 0 <= i < v@.len() ==> #[trigger] r@[i]@ == v@[i]@,
{
    let mut r: Vec<String> = Vec::new();
    for i in 0..v.len()
        invariant
            r@.len() == i,
            forall|k: int| 0 <= k < i ==> #[trigger] r@[k]@ == v@[k]@,
    {
        r.push(text_of(v[i].as_slice()));
    }
    r
}

/// Whether two character sequences are equal.
pub fn same_chars(a: &[char], b: &[char]) -> (r: bool)
    ensures
        r == (a@ == b@),
{
    if a.len() != b.len() {
        return false;
    }
    for i in 0..a.len()
        invariant
            a@.len() == b@.len(),
            forall|k: int| 0 <= k < i ==> a@[k] == b@[k],
    {
        if a[i] != b[i] {
            return false;
        }
    }
    assert(a@ =~= b@);
    true
}

/// Copy of the characters `s[from..to]`.
pub fn slice_chars(s: &[char], from: usize, to: usize) -> (r: Vec<char>)
    requires
        from <= to <= s@.len(),
    ensures
        r@ == s@.subrange(from as int, to as int),
{
    let mut r: Vec<char> = Vec::new();
    let mut i = from;
    while i < to
        invariant
            from <= i <= to <= s@.len(),
            r@ == s@.subrange(from as int, i as int),
        decreases to - i,
    {
        r.push(s[i]);
        i = i + 1;
        assert(r@ =~= s@.subrange(from as int, i as int));
    }
    r
}

/// `a` followed by `b`.
pub fn concat_chars(a: &[char], b: &[char]) -> (r: Vec<char>)
    ensures
        r@ == a@ + b@,
{
    let mut r: Vec<char> = Vec::new();
    for i in 0..a.len()
        invariant
            r@ == a@.take(i as int),
    {
        r.push(a[i]);
        assert(r@ =~= a@.take(i + 1));
    }
    assert(a@.take(a@.len() as int) =~= a@);
    for j in 0..b.len()
        invariant
            r@ == a@ + b@.take(j as int),
    {
        r.push(b[j]);
        assert(r@ =~= a@ + b@.take(j + 1));
    }
    assert(b@.take(b@.len() as int) =~= b@);
    r
}

// ---------------------------------------------------------------------------
// Splitting on whitespace
/// The words of `s` (as `str::split_whitespace` gives them), where `cur` is a
/// word whose reading began before `s`.
pub open spec fn words_from(cur: Seq<char>, s: Seq<char>) -> Seq<Seq<char>>
    decreases s.len(),
{
    if s.len() == 0 {
        if cur.len() > 0 {
            seq![cur]
        } else {
            seq![]
        }
    } else if is_whitespace(s[0]) {
        (if cur.len() > 0 {
            seq![cur]
        } else {
            Seq::<Seq<char>>::empty()
        }) + words_from(seq![], s.drop_first())
    } else {
        words_from(cur.push(s[0]), s.drop_first())
    }
}

/// The maximal runs of non-whitespace characters of `s`, in order.
pub open spec fn words(s: Seq<char>) -> Seq<Seq<char>> {
    words_from(seq![], s)
}

/// The words of `s`, as `str::split_whitespace` yields them.
pub fn split_whitespace(s: &[char]) -> (r: Vec<Vec<char>>)
    ensures
        views(r@) == words(s@),
{
    let mut out: Vec<Vec<char>> = Vec::new();
    let mut cur: Vec<char> = Vec::new();
    let mut i: usize = 0;
    assert(s@.skip(0) =~= s@);
    while i < s.len()
        invariant
            i <= s@.len(),
            words(s@) == views(out@) + words_from(cur@, s@.skip(i as int)),
        decreases s@.len() - i,
    {
        let c = s[i];
        assert(s@.skip(i as int).drop_first() =~= s@.skip(i + 1));
        if char_is_whitespace(c) {
            if cur.len() > 0 {
                let ghost before = views(out@);
                out.push(cur);
                assert(views(out@) =~= before + seq![cur@]);
                cur = Vec::new();
            } else {
                assert(cur@ =~= seq![]);
                cur = Vec::new();
            }
            assert(views(out@) + words_from(cur@, s@.skip(i + 1)) =~= words(s@));
        } else {
            cur.push(c);
        }
        i = i + 1;
    }
    if cur.len() > 0 {
        let ghost before = views(out@);
        out.push(cur);
        assert(views(out@) =~= before + seq![cur@]);
    }
    assert(views(out@) =~= words(s@));
    out
}

// ---------------------------------------------------------------------------
// Trimming
/// `s` without its leading whitespace.
pub open spec fn trim_start(s: Seq<char>) -> Seq<char>
    decreases s.len(),
{
    if s.len() > 0 && is_whitespace(s[0]) {
        trim_start(s.drop_first())
    } else {
        s
    }
}

/// `s` without its trailing whitespace.
pub open spec fn trim_end(s: Seq<char>) -> Seq<char>
    decreases s.len(),
{
    if s.len() > 0 && is_whitespace(s.last()) {
        trim_end(s.drop_last())
    } else {
        s
    }
}

/// `s` without leading and trailing whitespace, as `str::trim` gives it.
pub open spec fn trim(s: Seq<char>) -> Seq<char> {
    trim_end(trim_start(s))
}

pub proof fn lemma_trim_start_at(s: Seq<char>, a: int)
    requires
        0 <= a <= s.len(),
        forall|k: int| 0 <= k < a ==> is_whitespace(#[trigger] s[k]),
        a == s.len() || !is_whitespace(s[a]),
    ensures
        trim_start(s) == s.skip(a),
    decreases a,
{
    if a == 0 {
        assert(s.skip(0) =~= s);
    } else {
        let t = s.drop_first();
        assert forall|k: int| 0 <= k < a - 1 implies is_whitespace(#[trigger] t[k]) by {
            assert(t[k] == s[k + 1]);
        }
        lemma_trim_start_at(t, a - 1);
        assert(t.skip(a - 1) =~= s.skip(a));
    }
}

pub proof fn lemma_trim_end_at(s: Seq<char>, b: int)
    requires
        0 <= b <= s.len(),
        forall|k: int| b <= k < s.len() ==> is_whitespace(#[trigger] s[k]),
        b == 0 || !is_whitespace(s[b - 1]),
    ensures
        trim_end(s) == s.take(b),
    decreases s.len() - b,
{
    if b == s.len() {
        assert(s.take(b) =~= s);
    } else {
        let t = s.drop_last();
        assert forall|k: int| b <= k < t.len() implies is_whitespace(#[trigger] t[k]) by {
            assert(t[k] == s[k]);
        }
        lemma_trim_end_at(t, b);
        assert(t.take(b) =~= s.take(b));
    }
}

/// `s` without leading and trailing whitespace.
pub fn trim_chars(s: &[char]) -> (r: Vec<char>)
    ensures
        r@ == trim(s@),
{
    let n = s.len();
    let mut a: usize = 0;
    while a < n && char_is_whitespace(s[a])
        invariant
            a <= n == s@.len(),
            forall|k: int| 0 <= k < a ==> is_whitespace(#[trigger] s@[k]),
        decreases n - a,
    {
        a = a + 1;
    }
    proof {
        lemma_trim_start_at(s@, a as int);
    }
    let mut b: usize = n;
    while b > a && char_is_whitespace(s[b - 1])
        invariant
            a <= b <= n == s@.len(),
            forall|k: int| b <= k < n ==> is_whitespace(#[trigger] s@[k]),
        decreases b - a,
    {
        b = b - 1;
    }
    proof {
        let t = s@.skip(a as int);
        assert forall|k: int| b - a <= k < t.len() implies is_whitespace(#[trigger] t[k]) by {
            assert(t[k] == s@[k + a]);
        }
        if b > a {
            assert(t[b - a - 1] == s@[b - 1]);
        }
        lemma_trim_end_at(t, b - a);
        assert(t.take(b - a) =~= s@.subrange(a as int, b as int));
    }
    slice_chars(s, a, b)
}

// ---------------------------------------------------------------------------
// Splitting on a separator character
/// The pieces of `s` between occurrences of `sep`, where `cur` is the piece
/// whose reading began before `s`.
pub open spec fn pieces_from(cur: Seq<char>, s: Seq<char>, sep: char) -> Seq<Seq<char>>
    decreases s.len(),
{
    if s.len() == 0 {
        seq![cur]
    } else if s[0] == sep {
        seq![cur] + pieces_from(seq![], s.drop_first(), sep)
    } else {
        pieces_from(cur.push(s[0]), s.drop_first(), sep)
    }
}

/// The pieces of `s` between occurrences of `sep`, empty pieces included, as
/// `str::split` with a character pattern yields them.
pub open spec fn split_on(s: Seq<char>, sep: char) -> Seq<Seq<char>> {
    pieces_from(seq![], s, sep)
}

/// The pieces of `s` between occurrences of `sep`.
pub fn split_on_char(s: &[char], sep: char) -> (r: Vec<Vec<char>>)
    ensures
        views(r@) == split_on(s@, sep),
{
    let mut out: Vec<Vec<char>> = Vec::new();
    let mut cur: Vec<char> = Vec::new();
    let mut i: usize = 0;
    assert(s@.skip(0) =~= s@);
    while i < s.len()
        invariant
            i <= s@.len(),
            split_on(s@, sep) == views(out@) + pieces_from(cur@, s@.skip(i as int), sep),
        decreases s@.len() - i,
    {
        let c = s[i];
        assert(s@.skip(i as int).drop_first() =~= s@.skip(i + 1));
        if c == sep {
            let ghost before = views(out@);
            out.push(cur);
            assert(views(out@) =~= before + seq![cur@]);
            cur = Vec::new();
            assert(views(out@) + pieces_from(cur@, s@.skip(i + 1), sep) =~= split_on(s@, sep));
        } else {
            cur.push(c);
        }
        i = i + 1;
    }
    let ghost before = views(out@);
    out.push(cur);
    assert(views(out@) =~= before + seq![cur@]);
    assert(views(out@) =~= split_on(s@, sep));
    out
}

/// The characters of `s` before the first `sep`, or all of `s` where it holds
/// none: the first piece that `str::split` yields.
pub open spec fn before_first(s: Seq<char>, sep: char) -> Seq<char>
    decreases s.len(),
{
    if s.len() == 0 || s[0] == sep {
        seq![]
    } else {
        seq![s[0]] + before_first(s.drop_first(), sep)
    }
}

/// The characters of `s` before the first `sep`.
pub fn before_first_char(s: &[char], sep: char) -> (r: Vec<char>)
    ensures
        r@ == before_first(s@, sep),
{
    let mut i: usize = 0;
    assert(s@.skip(0) =~= s@);
    assert(s@.take(0) + before_first(s@, sep) =~= before_first(s@, sep));
    while i < s.len() && s[i] != sep
        invariant
            i <= s@.len(),
            before_first(s@, sep) == s@.take(i as int) + before_first(s@.skip(i as int), sep),
        decreases s@.len() - i,
    {
        assert(s@.skip(i as int).drop_first() =~= s@.skip(i + 1));
        assert(s@.take(i + 1) =~= s@.take(i as int) + seq![s@[i as int]]);
        i = i + 1;
    }
    assert(before_first(s@.skip(i as int), sep) =~= seq![]);
    assert(s@.take(i as int) + seq![] =~= s@.take(i as int));
    slice_chars(s, 0, i)
}

// ---------------------------------------------------------------------------
// Occurrences of a pattern
/// `p` occurs in `s` starting at index `i`.
pub open spec fn occurs_at(s: Seq<char>, p: Seq<char>, i: int) -> bool {
    0 <= i && i + p.len() <= s.len() && s.subrange(i, i + p.len()) == p
}

/// `p` occurs somewhere in `s`, as `str::contains` reports it.
pub open spec fn contains(s: Seq<char>, p: Seq<char>) -> bool {
    exists|i: int| occurs_at(s, p, i)
}

/// `s` begins with `p`.
pub open spec fn starts_with(s: Seq<char>, p: Seq<char>) -> bool {
    occurs_at(s, p, 0)
}

/// `s` ends with `p`.
pub open spec fn ends_with(s: Seq<char>, p: Seq<char>) -> bool {
    p.len() <= s.len() && occurs_at(s, p, s.len() - p.len())
}

/// Whether `p` occurs in `s` at index `i`.
pub fn occurs_at_index(s: &[char], p: &[char], i: usize) -> (r: bool)
    ensures
        r == occurs_at(s@, p@, i as int),
{
    if i > s.len() || p.len() > s.len() - i {
        return false;
    }
    let mut k: usize = 0;
    while k < p.len()
        invariant
            i + p@.len() <= s@.len(),
            s.len() == s@.len(),
            k <= p@.len(),
            forall|j: int| 0 <= j < k ==> s@[i + j] == p@[j],
        decreases p@.len() - k,
    {
        if s[i + k] != p[k] {
            assert(s@.subrange(i as int, i + p@.len())[k as int] != p@[k as int]);
            return false;
        }
        k = k + 1;
    }
    assert(s@.subrange(i as int, i + p@.len()) =~= p@);
    true
}

/// The index of the first occurrence of `p` in `s`, if there is one.
pub fn find_chars(s: &[char], p: &[char]) -> (r: Option<usize>)
    ensures
        match r {
            Some(i) => occurs_at(s@, p@, i as int) && forall|j: int|
                0 <= j < i ==> !occurs_at(s@, p@, j),
            None => !contains(s@, p@),
        },
{
    if p.len() > s.len() {
        return None;
    }
    if p.len() == 0 {
        assert(s@.subrange(0, 0) =~= p@);
        return Some(0);
    }
    let last = s.len() - p.len();
    let mut i: usize = 0;
    while i <= last
        invariant
            last + p@.len() == s@.len(),
            s.len() == s@.len(),
            p@.len() > 0,
            forall|j: int| 0 <= j < i ==> !occurs_at(s@, p@, j),
        decreases last + 1 - i,
    {
        if occurs_at_index(s, p, i) {
            return Some(i);
        }
        i = i + 1;
    }
    None
}

/// Whether `p` occurs in `s`.
pub fn contains_chars(s: &[char], p: &[char]) -> (r: bool)
    ensures
        r == contains(s@, p@),
{
    match find_chars(s, p) {
        Some(i) => true,
        None => false,
    }
}

/// Whether `s` begins with `p`.
pub fn starts_with_chars(s: &[char], p: &[char]) -> (r: bool)
    ensures
        r == starts_with(s@, p@),
{
    occurs_at_index(s, p, 0)
}

/// Whether `s` ends with `p`.
pub fn ends_with_chars(s: &[char], p: &[char]) -> (r: bool)
    ensures
        r == ends_with(s@, p@),
{
    if p.len() > s.len() {
        false
    } else {
        occurs_at_index(s, p, s.len() - p.len())
    }
}

// ---------------------------------------------------------------------------
// Replacing
/// Every occurrence of the non-empty `p` in `s` replaced by `w`, scanning left
/// to right without overlaps, as `str::replace` does.
pub open spec fn replace_all(s: Seq<char>, p: Seq<char>, w: Seq<char>) -> Seq<char>
    decreases s.len(),
{
    if s.len() == 0 || p.len() == 0 {
        s
    } else if occurs_at(s, p, 0) {
        w + replace_all(s.skip(p.len() as int), p, w)
    } else {
        seq![s[0]] + replace_all(s.drop_first(), p, w)
    }
}

/// The first occurrence of `p` in `s` replaced by `w`, as
/// `str::replacen(p, w, 1)` does.
pub open spec fn replace_first(s: Seq<char>, p: Seq<char>, w: Seq<char>) -> Seq<char> {
    if contains(s, p) {
        let i = choose|i: int| occurs_at(s, p, i) && forall|j: int| 0 <= j < i ==> !occurs_at(s, p, j);
        s.take(i) + w + s.skip(i + p.len())
    } else {
        s
    }
}

/// `s` with every occurrence of the non-empty `p` replaced by `w`.
pub fn replace_all_chars(s: &[char], p: &[char], w: &[char]) -> (r: Vec<char>)
    requires
        p@.len() > 0,
    ensures
        r@ == replace_all(s@, p@, w@),
{
    let mut out: Vec<char> = Vec::new();
    let mut i: usize = 0;
    assert(s@.skip(0) =~= s@);
    while i < s.len()
        invariant
            i <= s@.len(),
            p@.len() > 0,
            replace_all(s@, p@, w@) == out@ + replace_all(s@.skip(i as int), p@, w@),
        decreases s@.len() - i,
    {
        let ghost rest = s@.skip(i as int);
        if occurs_at_index(s, p, i) {
            assert(rest.subrange(0, p@.len() as int) =~= s@.subrange(i as int, i + p@.len()));
            assert(occurs_at(rest, p@, 0int));
            assert(rest.skip(p@.len() as int) =~= s@.skip(i + p@.len()));
            let ghost before = out@;
            let mut k: usize = 0;
            while k < w.len()
                invariant
                    k <= w@.len(),
                    out@ == before + w@.take(k as int),
                decreases w@.len() - k,
            {
                out.push(w[k]);
                k = k + 1;
                assert(out@ =~= before + w@.take(k as int));
            }
            assert(w@.take(w@.len() as int) =~= w@);
            assert(out@ + replace_all(s@.skip(i + p@.len()), p@, w@) =~= before + (w@
                + replace_all(rest.skip(p@.len() as int), p@, w@)));
            i = i + p.len();
        } else {
            proof {
                if occurs_at(rest, p@, 0int) {
                    assert(rest.subrange(0, p@.len() as int) =~= s@.subrange(
                        i as int,
                        i + p@.len(),
                    ));
                    assert(false);
                }
            }
            assert(rest.drop_first() =~= s@.skip(i + 1));
            let ghost before = out@;
            out.push(s[i]);
            assert(out@ + replace_all(s@.skip(i + 1), p@, w@) =~= before + (seq![rest[0]]
                + replace_all(rest.drop_first(), p@, w@)));
            i = i + 1;
        }
    }
    assert(s@.skip(i as int) =~= Seq::<char>::empty());
    assert(out@ + Seq::<char>::empty() =~= out@);
    out
}

/// `s` with the first occurrence of `p` replaced by `w`.
pub fn replace_first_chars(s: &[char], p: &[char], w: &[char]) -> (r: Vec<char>)
    ensures
        r@ == replace_first(s@, p@, w@),
{
    match find_chars(s, p) {
        None => slice_chars(s, 0, s.len()),
        Some(i) => {
            assert(i + p@.len() <= s@.len() == s.len());
            proof {
                let j = choose|j: int|
                    occurs_at(s@, p@, j) && forall|k: int| 0 <= k < j ==> !occurs_at(s@, p@, k);
                assert(occurs_at(s@, p@, i as int));
                if j < i {
                    assert(!occurs_at(s@, p@, j));
                } else if j > i {
                    assert(!occurs_at(s@, p@, i as int));
                }
                assert(j == i);
            }
            let head = slice_chars(s, 0, i);
            let tail = slice_chars(s, i + p.len(), s.len());
            let hw = concat_chars(head.as_slice(), w);
            let r = concat_chars(hw.as_slice(), tail.as_slice());
            assert(s@.subrange(0, i as int) =~= s@.take(i as int));
            assert(s@.subrange(i + p@.len(), s@.len() as int) =~= s@.skip(i + p@.len()));
            r
        },
    }
}

// ---------------------------------------------------------------------------
// Lower case
/// What `str::to_lowercase` gives for a string holding the characters `s`:
/// Unicode's lower-case mapping, applied with the context rules of the
/// standard library (such as that of a final capital sigma).
pub uninterp spec fn lowercase(s: Seq<char>) -> Seq<char>;

/// Every character of `s` is an ASCII character.
pub open spec fn is_ascii_text(s: Seq<char>) -> bool {
    forall|i: int| 0 <= i < s.len() ==> (#[trigger] s[i] as int) < 128
}

/// The ASCII lower case of a character: `A` to `Z` become `a` to `z`, and
/// every other character stays.
pub open spec fn ascii_lowercase(c: char) -> char {
    if 'A' <= c && c <= 'Z' {
        ((c as int) + 32) as char
    } else {
        c
    }
}

/// The characters of the lower-case form of the text `s`.
///
/// Trusted: calls std's `str::to_lowercase` on the string made of `s` and
/// reads back its characters. The contract names that result `lowercase`;
/// of it, it claims only what Unicode's lower-case mapping, which std's
/// documentation names, gives for a text made of ASCII characters alone:
/// each letter `A` to `Z` becomes `a` to `z`, and every other character
/// stays.
#[verifier::external_body]
pub(crate) fn to_lowercase_chars(s: &[char]) -> (r: Vec<char>)
    ensures
        r@ == lowercase(s@),
        is_ascii_text(s@) ==> r@ == s@.map_values(|c: char| ascii_lowercase(c)),
{
    let text: String = s.iter().collect();
    text.to_lowercase().chars().collect()
}

// ---------------------------------------------------------------------------
// Facts about the operations above
/// The words of two texts joined by a whitespace character are the words
/// of the first followed by those of the second.
pub proof fn lemma_words_of_joined(t: Seq<char>, ws: char, e: Seq<char>)
    requires
        is_whitespace(ws),
    ensures
        words(t + seq![ws] + e) == words(t) + words(e),
{
    lemma_words_from_joined(seq![], t, ws, e);
}

proof fn lemma_words_from_joined(cur: Seq<char>, t: Seq<char>, ws: char, e: Seq<char>)
    requires
        is_whitespace(ws),
    ensures
        words_from(cur, t + seq![ws] + e) == words_from(cur, t) + words_from(seq![], e),
    decreases t.len(),
{
    let j = t + seq![ws] + e;
    if t.len() == 0 {
        assert(j =~= seq![ws] + e);
        assert(j.drop_first() =~= e);
        if cur.len() > 0 {
            assert(words_from(cur, t) == seq![cur]);
        } else {
            assert(words_from(cur, t) =~= Seq::<Seq<char>>::empty());
        }
    } else {
        assert(j[0] == t[0]);
        assert(j.drop_first() =~= t.drop_first() + seq![ws] + e);
        if is_whitespace(t[0]) {
            lemma_words_from_joined(seq![], t.drop_first(), ws, e);
        } else {
            lemma_words_from_joined(cur.push(t[0]), t.drop_first(), ws, e);
        }
    }
}

/// The pieces of two texts joined by the separator are the pieces of the
/// first followed by those of the second.
pub proof fn lemma_split_on_joined(t: Seq<char>, sep: char, e: Seq<char>)
    ensures
        split_on(t + seq![sep] + e, sep) == split_on(t, sep) + split_on(e, sep),
{
    lemma_pieces_from_joined(seq![], t, sep, e);
}

proof fn lemma_pieces_from_joined(cur: Seq<char>, t: Seq<char>, sep: char, e: Seq<char>)
    ensures
        pieces_from(cur, t + seq![sep] + e, sep) == pieces_from(cur, t, sep) + pieces_from(
            seq![],
            e,
            sep,
        ),
    decreases t.len(),
{
    let j = t + seq![sep] + e;
    if t.len() == 0 {
        assert(j =~= seq![sep] + e);
        assert(j.drop_first() =~= e);
    } else {
        assert(j[0] == t[0]);
        assert(j.drop_first() =~= t.drop_first() + seq![sep] + e);
        if t[0] == sep {
            lemma_pieces_from_joined(seq![], t.drop_first(), sep, e);
        } else {
            lemma_pieces_from_joined(cur.push(t[0]), t.drop_first(), sep, e);
        }
    }
}

/// A text holding the separator splits into at least two pieces.
pub proof fn lemma_split_on_len(t: Seq<char>, sep: char)
    ensures
        split_on(t, sep).len() >= 1,
        t.contains(sep) ==> split_on(t, sep).len() >= 2,
{
    lemma_pieces_from_len(seq![], t, sep);
}

proof fn lemma_pieces_from_len(cur: Seq<char>, t: Seq<char>, sep: char)
    ensures
        pieces_from(cur, t, sep).len() >= 1,
        t.contains(sep) ==> pieces_from(cur, t, sep).len() >= 2,
    decreases t.len(),
{
    if t.len() > 0 {
        if t[0] == sep {
            lemma_pieces_from_len(seq![], t.drop_first(), sep);
        } else {
            lemma_pieces_from_len(cur.push(t[0]), t.drop_first(), sep);
            if t.contains(sep) {
                let k = choose|k: int| 0 <= k < t.len() && t[k] == sep;
                assert(t.drop_first()[k - 1] == sep);
            }
        }
    }
}

/// The ASCII lower case of a text, character by character.
pub open spec fn ascii_lower_text(w: Seq<char>) -> Seq<char> {
    w.map_values(|c: char| ascii_lowercase(c))
}

/// The words of an ASCII text are ASCII.
pub proof fn lemma_words_ascii(s: Seq<char>)
    requires
        is_ascii_text(s),
    ensures
        forall|k: int| 0 <= k < words(s).len() ==> is_ascii_text(#[trigger] words(s)[k]),
{
    lemma_words_from_ascii(seq![], s);
}

proof fn lemma_words_from_ascii(cur: Seq<char>, s: Seq<char>)
    requires
        is_ascii_text(cur),
        is_ascii_text(s),
    ensures
        forall|k: int|
            0 <= k < words_from(cur, s).len() ==> is_ascii_text(#[trigger] words_from(cur, s)[k]),
    decreases s.len(),
{
    if s.len() > 0 {
        let t = s.drop_first();
        assert(is_ascii_text(t)) by {
            assert forall|i: int| 0 <= i < t.len() implies (#[trigger] t[i] as int) < 128 by {
                assert(t[i] == s[i + 1]);
            }
        }
        assert((s[0] as int) < 128);
        if is_whitespace(s[0]) {
            lemma_words_from_ascii(seq![], t);
            let w = words_from(seq![], t);
            let pre = if cur.len() > 0 {
                seq![cur]
            } else {
                Seq::<Seq<char>>::empty()
            };
            assert forall|k: int| 0 <= k < (pre + w).len() implies is_ascii_text(
                #[trigger] (pre + w)[k],
            ) by {
                if k >= pre.len() {
                    assert((pre + w)[k] == w[k - pre.len()]);
                } else {
                    assert((pre + w)[k] == cur);
                }
            }
            assert(words_from(cur, s) == pre + w);
        } else {
            let c2 = cur.push(s[0]);
            assert(is_ascii_text(c2)) by {
                assert forall|i: int| 0 <= i < c2.len() implies (#[trigger] c2[i] as int) < 128 by {
                    if i < cur.len() {
                        assert(c2[i] == cur[i]);
                    }
                }
            }
            lemma_words_from_ascii(c2, t);
            assert(words_from(cur, s) == words_from(c2, t));
        }
    } else if cur.len() > 0 {
        assert(words_from(cur, s) =~= seq![cur]);
        assert(seq![cur][0] == cur);
    } else {
        assert(words_from(cur, s) =~= Seq::<Seq<char>>::empty());
    }
}

/// The pieces of an ASCII text are ASCII.
pub proof fn lemma_split_on_ascii(s: Seq<char>, sep: char)
    requires
        is_ascii_text(s),
    ensures
        forall|k: int|
            0 <= k < split_on(s, sep).len() ==> is_ascii_text(#[trigger] split_on(s, sep)[k]),
{
    lemma_pieces_from_ascii(seq![], s, sep);
}

proof fn lemma_pieces_from_ascii(cur: Seq<char>, s: Seq<char>, sep: char)
    requires
        is_ascii_text(cur),
        is_ascii_text(s),
    ensures
        forall|k: int|
            0 <= k < pieces_from(cur, s, sep).len() ==> is_ascii_text(
                #[trigger] pieces_from(cur, s, sep)[k],
            ),
    decreases s.len(),
{
    if s.len() > 0 {
        let t = s.drop_first();
        assert(is_ascii_text(t)) by {
            assert forall|i: int| 0 <= i < t.len() implies (#[trigger] t[i] as int) < 128 by {
                assert(t[i] == s[i + 1]);
            }
        }
        assert((s[0] as int) < 128);
        if s[0] == sep {
            lemma_pieces_from_ascii(seq![], t, sep);
            let w = pieces_from(seq![], t, sep);
            assert forall|k: int| 0 <= k < (seq![cur] + w).len() implies is_ascii_text(
                #[trigger] (seq![cur] + w)[k],
            ) by {
                if k >= 1 {
                    assert((seq![cur] + w)[k] == w[k - 1]);
                } else {
                    assert((seq![cur] + w)[k] == cur);
                }
            }
            assert(pieces_from(cur, s, sep) == seq![cur] + w);
        } else {
            let c2 = cur.push(s[0]);
            assert(is_ascii_text(c2)) by {
                assert forall|i: int| 0 <= i < c2.len() implies (#[trigger] c2[i] as int) < 128 by {
                    if i < cur.len() {
                        assert(c2[i] == cur[i]);
                    }
                }
            }
            lemma_pieces_from_ascii(c2, t, sep);
            assert(pieces_from(cur, s, sep) == pieces_from(c2, t, sep));
        }
    } else {
        assert(pieces_from(cur, s, sep) =~= seq![cur]);
        assert(seq![cur][0] == cur);
    }
}

/// Trimming an ASCII text leaves an ASCII text.
pub proof fn lemma_trim_ascii(s: Seq<char>)
    requires
        is_ascii_text(s),
    ensures
        is_ascii_text(trim(s)),
{
    lemma_trim_start_ascii(s);
    lemma_trim_end_ascii(trim_start(s));
}

proof fn lemma_trim_start_ascii(s: Seq<char>)
    requires
        is_ascii_text(s),
    ensures
        is_ascii_text(trim_start(s)),
    decreases s.len(),
{
    if s.len() > 0 && is_whitespace(s[0]) {
        let t = s.drop_first();
        assert forall|i: int| 0 <= i < t.len() implies (#[trigger] t[i] as int) < 128 by {
            assert(t[i] == s[i + 1]);
        }
        lemma_trim_start_ascii(t);
    }
}

proof fn lemma_trim_end_ascii(s: Seq<char>)
    requires
        is_ascii_text(s),
    ensures
        is_ascii_text(trim_end(s)),
    decreases s.len(),
{
    if s.len() > 0 && is_whitespace(s.last()) {
        let t = s.drop_last();
        assert forall|i: int| 0 <= i < t.len() implies (#[trigger] t[i] as int) < 128 by {
            assert(t[i] == s[i]);
        }
        lemma_trim_end_ascii(t);
    }
}

/// A text without the separator is a single piece.
pub proof fn lemma_split_on_single(s: Seq<char>, sep: char)
    requires
        !s.contains(sep),
    ensures
        split_on(s, sep) == seq![s],
{
    lemma_pieces_from_single(seq![], s, sep);
    assert(Seq::<char>::empty() + s =~= s);
}

proof fn lemma_pieces_from_single(cur: Seq<char>, s: Seq<char>, sep: char)
    requires
        !s.contains(sep),
    ensures
        pieces_from(cur, s, sep) == seq![cur + s],
    decreases s.len(),
{
    if s.len() == 0 {
        assert(cur + s =~= cur);
    } else {
        let t = s.drop_first();
        assert(s[0] != sep);
        assert(!t.contains(sep)) by {
            if t.contains(sep) {
                let k = choose|k: int| 0 <= k < t.len() && t[k] == sep;
                assert(s[k + 1] == sep);
            }
        }
        lemma_pieces_from_single(cur.push(s[0]), t, sep);
        assert(cur.push(s[0]) + t =~= cur + s);
    }
}

/// A non-empty text without whitespace is a single word.
pub proof fn lemma_words_single(s: Seq<char>)
    requires
        s.len() > 0,
        forall|i: int| 0 <= i < s.len() ==> !is_whitespace(#[trigger] s[i]),
    ensures
        words(s) == seq![s],
{
    lemma_words_from_single(seq![], s);
    assert(Seq::<char>::empty() + s =~= s);
}

proof fn lemma_words_from_single(cur: Seq<char>, s: Seq<char>)
    requires
        cur.len() + s.len() > 0,
        forall|i: int| 0 <= i < s.len() ==> !is_whitespace(#[trigger] s[i]),
    ensures
        words_from(cur, s) == seq![cur + s],
    decreases s.len(),
{
    if s.len() == 0 {
        assert(cur + s =~= cur);
    } else {
        let t = s.drop_first();
        assert(!is_whitespace(s[0]));
        assert forall|i: int| 0 <= i < t.len() implies !is_whitespace(#[trigger] t[i]) by {
            assert(t[i] == s[i + 1]);
        }
        lemma_words_from_single(cur.push(s[0]), t);
        assert(cur.push(s[0]) + t =~= cur + s);
    }
}

/// An occurrence of `p` begins with the first characters of `p`.
pub proof fn lemma_occurrence_starts(s: Seq<char>, p: Seq<char>, i: int)
    requires
        occurs_at(s, p, i),
        p.len() >= 2,
    ensures
        s[i] == p[0],
        s[i + 1] == p[1],
{
    assert(s.subrange(i, i + p.len())[0] == s[i]);
    assert(s.subrange(i, i + p.len())[1] == s[i + 1]);
}

/// A text that begins with `p` has that `p` replaced first.
pub proof fn lemma_replace_all_leading(p: Seq<char>, y: Seq<char>, w: Seq<char>)
    requires
        p.len() > 0,
    ensures
        replace_all(p + y, p, w) == w + replace_all(y, p, w),
{
    let s = p + y;
    assert(s.subrange(0, p.len() as int) =~= p);
    assert(s.skip(p.len() as int) =~= y);
}

/// A prefix in which no occurrence of `p` begins is kept as it is.
pub proof fn lemma_replace_all_keeps_prefix(x: Seq<char>, y: Seq<char>, p: Seq<char>, w: Seq<char>)
    requires
        p.len() > 0,
        forall|i: int| 0 <= i < x.len() ==> !occurs_at(x + y, p, i),
    ensures
        replace_all(x + y, p, w) == x + replace_all(y, p, w),
    decreases x.len(),
{
    let s = x + y;
    if x.len() == 0 {
        assert(s =~= y);
        assert(x + replace_all(y, p, w) =~= replace_all(y, p, w));
    } else {
        assert(!occurs_at(s, p, 0));
        let x2 = x.drop_first();
        assert(s.drop_first() =~= x2 + y);
        assert forall|i: int| 0 <= i < x2.len() implies !occurs_at(x2 + y, p, i) by {
            if occurs_at(x2 + y, p, i) {
                assert((x2 + y).subrange(i, i + p.len()) =~= s.subrange(i + 1, i + 1 + p.len()));
                assert(occurs_at(s, p, i + 1));
            }
        }
        lemma_replace_all_keeps_prefix(x2, y, p, w);
        assert(seq![s[0]] + (x2 + replace_all(y, p, w)) =~= x + replace_all(y, p, w));
    }
}

/// The text before the first separator of `x`, the separator and `z` is `x`
/// where `x` holds no separator.
pub proof fn lemma_before_first_of_joined(x: Seq<char>, sep: char, z: Seq<char>)
    requires
        !x.contains(sep),
    ensures
        before_first(x + seq![sep] + z, sep) == x,
    decreases x.len(),
{
    let s = x + seq![sep] + z;
    if x.len() == 0 {
        assert(s[0] == sep);
    } else {
        let x2 = x.drop_first();
        assert(x[0] != sep);
        assert(!x2.contains(sep)) by {
            if x2.contains(sep) {
                let i = choose|i: int| 0 <= i < x2.len() && x2[i] == sep;
                assert(x[i + 1] == sep);
            }
        }
        assert(s.drop_first() =~= x2 + seq![sep] + z);
        lemma_before_first_of_joined(x2, sep, z);
        assert(seq![x[0]] + x2 =~= x);
    }
}

/// A pattern holding a character that `s` lacks does not occur in `s`.
pub proof fn lemma_missing_char_not_contained(s: Seq<char>, p: Seq<char>, c: char)
    requires
        p.contains(c),
        !s.contains(c),
    ensures
        !contains(s, p),
{
    if contains(s, p) {
        let i = choose|i: int| occurs_at(s, p, i);
        let j = choose|j: int| 0 <= j < p.len() && p[j] == c;
        assert(s.subrange(i, i + p.len())[j] == s[i + j]);
        assert(s[i + j] == c);
    }
}

/// Replacing a pattern that does not occur leaves the text as it is.
pub proof fn lemma_replace_all_absent(s: Seq<char>, p: Seq<char>, w: Seq<char>)
    requires
        !contains(s, p),
    ensures
        replace_all(s, p, w) == s,
    decreases s.len(),
{
    if s.len() == 0 || p.len() == 0 {
    } else {
        assert(!occurs_at(s, p, 0));
        let t = s.drop_first();
        if contains(t, p) {
            let i = choose|i: int| occurs_at(t, p, i);
            assert(s.subrange(i + 1, i + 1 + p.len()) =~= t.subrange(i, i + p.len()));
            assert(occurs_at(s, p, i + 1));
        }
        lemma_replace_all_absent(t, p, w);
        assert(seq![s[0]] + t =~= s);
    }
}

/// Text without the separator is its own first piece.
pub proof fn lemma_before_first_absent(s: Seq<char>, sep: char)
    requires
        !s.contains(sep),
    ensures
        before_first(s, sep) == s,
    decreases s.len(),
{
    if s.len() > 0 {
        assert(s[0] != sep);
        let t = s.drop_first();
        assert(!t.contains(sep)) by {
            if t.contains(sep) {
                let i = choose|i: int| 0 <= i < t.len() && t[i] == sep;
                assert(s[i + 1] == sep);
            }
        }
        lemma_before_first_absent(t, sep);
        assert(seq![s[0]] + t =~= s);
    }
}

} // verus!

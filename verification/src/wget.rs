//! Finding the download links of `wget` commands in a script: the matches of
//! `wget.*?(https?://\S+)`, taken left to right without overlap.
use vstd::prelude::*;

use crate::error::{PassageError, PassageErrorView};
use crate::text::{char_is_white_space, chars_of, is_white_space, substring};

verus! {

broadcast use vstd::string::group_string_axioms;

/// `w` occurs in `t` at position `q`.
pub open spec fn occurs_at(t: Seq<char>, q: int, w: Seq<char>) -> bool {
    0 <= q && q + w.len() <= t.len() && t.subrange(q, q + w.len()) == w
}

pub open spec fn word_wget() -> Seq<char> {
    seq!['w', 'g', 'e', 't']
}

pub open spec fn word_https() -> Seq<char> {
    seq!['h', 't', 't', 'p', 's', ':', '/', '/']
}

pub open spec fn word_http() -> Seq<char> {
    seq!['h', 't', 't', 'p', ':', '/', '/']
}

/// The end of the run of characters other than white space that starts at `i`.
pub open spec fn non_ws_run_end(t: Seq<char>, i: int) -> int
    decreases t.len() - i,
{
    if 0 <= i < t.len() && !is_white_space(t[i]) {
        non_ws_run_end(t, i + 1)
    } else {
        i
    }
}

/// Where the scheme `http://` or `https://` that starts at `q` ends.
pub open spec fn scheme_end(t: Seq<char>, q: int) -> Option<int> {
    if occurs_at(t, q, word_https()) {
        Some(q + 8)
    } else if occurs_at(t, q, word_http()) {
        Some(q + 7)
    } else {
        None
    }
}

/// Where the link `https?://\S+` that starts at `q` ends.
pub open spec fn url_end(t: Seq<char>, q: int) -> Option<int> {
    match scheme_end(t, q) {
        Some(s) => if s < t.len() && !is_white_space(t[s]) {
            Some(non_ws_run_end(t, s))
        } else {
            None
        },
        None => None,
    }
}

/// The first link at or after `q` on the same line: `(start, end)`.
pub open spec fn find_url(t: Seq<char>, q: int) -> Option<(int, int)>
    decreases t.len() - q,
{
    if q < 0 || q >= t.len() {
        None
    } else {
        match url_end(t, q) {
            Some(e) => Some((q, e)),
            None => if t[q] != '\n' {
                find_url(t, q + 1)
            } else {
                None
            },
        }
    }
}

/// The link of the match that starts with the `wget` at `p`, if there is one.
pub open spec fn match_at(t: Seq<char>, p: int) -> Option<(int, int)> {
    if occurs_at(t, p, word_wget()) {
        find_url(t, p + 4)
    } else {
        None
    }
}

/// The link of the leftmost match that starts at or after `pos`.
pub open spec fn find_match(t: Seq<char>, pos: int) -> Option<(int, int)>
    decreases t.len() - pos,
{
    if pos < 0 || pos >= t.len() {
        None
    } else {
        match match_at(t, pos) {
            Some(r) => Some(r),
            None => find_match(t, pos + 1),
        }
    }
}

/// The links of all matches from `pos` on, each search resuming where the
/// previous match ended.
pub open spec fn links_from(t: Seq<char>, pos: int) -> Seq<Seq<char>>
    decreases t.len() - pos,
{
    if pos < 0 || pos >= t.len() {
        Seq::empty()
    } else {
        match find_match(t, pos) {
            Some((q, e)) => if pos < e <= t.len() {
                seq![t.subrange(q, e)] + links_from(t, e)
            } else {
                Seq::empty()
            },
            None => Seq::empty(),
        }
    }
}

/// The links of the `wget` commands of `t`.
pub open spec fn wget_links(t: Seq<char>) -> Seq<Seq<char>> {
    links_from(t, 0)
}

fn word_at(t: &Vec<char>, q: usize, w: &Vec<char>) -> (r: bool)
    ensures
        r == occurs_at(t@, q as int, w@),
{
    if w.len() > t.len() || q > t.len() - w.len() {
        return false;
    }
    let mut i: usize = 0;
    while i < w.len()
        invariant
            q + w.len() <= t.len(),
            i <= w.len(),
            forall|j: int| 0 <= j < i ==> t@[q + j] == w@[j],
        decreases w.len() - i,
    {
        if t[q + i] != w[i] {
            assert(t@.subrange(q as int, q + w.len())[i as int] != w@[i as int]);
            return false;
        }
        i = i + 1;
    }
    assert(t@.subrange(q as int, q + w.len()) =~= w@);
    true
}

fn non_ws_end(t: &Vec<char>, i: usize) -> (r: usize)
    requires
        i <= t.len(),
    ensures
        r == non_ws_run_end(t@, i as int),
        i <= r <= t.len(),
{
    let mut j = i;
    while j < t.len() && !char_is_white_space(t[j])
        invariant
            i <= j <= t.len(),
            non_ws_run_end(t@, i as int) == non_ws_run_end(t@, j as int),
        decreases t.len() - j,
    {
        j = j + 1;
    }
    j
}

fn url_end_at(t: &Vec<char>, q: usize, https: &Vec<char>, http: &Vec<char>) -> (r: Option<usize>)
    requires
        https@ == word_https(),
        http@ == word_http(),
    ensures
        r matches Some(e) ==> url_end(t@, q as int) == Some(e as int),
        r is None ==> url_end(t@, q as int) is None,
{
    let s = if word_at(t, q, https) {
        assert(https@.len() == 8);
        q + 8
    } else if word_at(t, q, http) {
        assert(occurs_at(t@, q as int, http@));
        assert(q + 7 <= t.len());
        q + 7
    } else {
        return None;
    };
    if s < t.len() && !char_is_white_space(t[s]) {
        Some(non_ws_end(t, s))
    } else {
        None
    }
}

fn find_url_from(t: &Vec<char>, q: usize, https: &Vec<char>, http: &Vec<char>) -> (r: Option<(usize, usize)>)
    requires
        https@ == word_https(),
        http@ == word_http(),
    ensures
        r matches Some((a, b)) ==> find_url(t@, q as int) == Some((a as int, b as int)),
        r is None ==> find_url(t@, q as int) is None,
{
    let mut j = q;
    while j < t.len()
        invariant
            q <= j,
            https@ == word_https(),
            http@ == word_http(),
            find_url(t@, q as int) == find_url(t@, j as int),
        decreases t.len() - j,
    {
        match url_end_at(t, j, https, http) {
            Some(e) => {
                return Some((j, e));
            },
            None => {
                if t[j] == '\n' {
                    return None;
                }
            },
        }
        j = j + 1;
    }
    None
}

proof fn lemma_find_url_bounds(t: Seq<char>, q: int)
    ensures
        find_url(t, q) matches Some((a, e)) ==> q <= a < e <= t.len(),
    decreases t.len() - q,
{
    if 0 <= q < t.len() {
        if let Some(s) = scheme_end(t, q) {
            if s < t.len() && !is_white_space(t[s]) {
                lemma_non_ws_run_end(t, s);
            }
        }
        if url_end(t, q) is None && t[q] != '\n' {
            lemma_find_url_bounds(t, q + 1);
        }
    }
}

proof fn lemma_non_ws_run_end(t: Seq<char>, i: int)
    requires
        0 <= i <= t.len(),
    ensures
        i <= non_ws_run_end(t, i) <= t.len(),
        forall|j: int| i <= j < non_ws_run_end(t, i) ==> !is_white_space(#[trigger] t[j]),
    decreases t.len() - i,
{
    if i < t.len() && !is_white_space(t[i]) {
        lemma_non_ws_run_end(t, i + 1);
    }
}

/// Extracts the link of each `wget` command of `lines`, in order; fails when there is none.
pub fn extract_wget_urls(lines: &str) -> (r: Result<Vec<String>, PassageError>)
    ensures
        r matches Ok(v) ==> v@.map_values(|s: String| s@) == wget_links(lines@) && v@.len() > 0,
        r matches Err(e) ==> wget_links(lines@).len() == 0 && e@ == PassageErrorView::NoUrls,
{
    let t = chars_of(lines);
    let wget = vec!['w', 'g', 'e', 't'];
    let https = vec!['h', 't', 't', 'p', 's', ':', '/', '/'];
    let http = vec!['h', 't', 't', 'p', ':', '/', '/'];
    assert(wget@ =~= word_wget());
    assert(https@ =~= word_https());
    assert(http@ =~= word_http());
    let mut urls: Vec<String> = Vec::new();
    let mut pos: usize = 0;
    let mut p: usize = 0;
    while p < t.len()
        invariant
            t@ == lines@,
            wget@ == word_wget(),
            https@ == word_https(),
            http@ == word_http(),
            pos <= p <= t.len(),
            find_match(t@, pos as int) == find_match(t@, p as int),
            links_from(t@, 0) == urls@.map_values(|s: String| s@) + links_from(t@, pos as int),
        decreases t.len() - pos, t.len() - p,
    {
        let found = if word_at(&t, p, &wget) {
            find_url_from(&t, p + 4, &https, &http)
        } else {
            None
        };
        assert(found matches Some((a, b)) ==> match_at(t@, p as int) == Some((a as int, b as int)));
        assert(found is None ==> match_at(t@, p as int) is None);
        match found {
            Some((q, e)) => {
                proof {
                    lemma_find_url_bounds(t@, p + 4);
                }
                let link = substring(lines, q, e);
                let ghost before = urls@.map_values(|s: String| s@);
                urls.push(link);
                assert(urls@.map_values(|s: String| s@) =~= before.push(link@));
                assert(links_from(t@, pos as int) == seq![t@.subrange(q as int, e as int)]
                    + links_from(t@, e as int));
                assert(before + links_from(t@, pos as int) =~= urls@.map_values(|s: String| s@)
                    + links_from(t@, e as int));
                pos = e;
                p = e;
            },
            None => {
                p = p + 1;
            },
        }
    }
    assert(links_from(t@, pos as int) =~= Seq::<Seq<char>>::empty()) by {
        assert(find_match(t@, p as int) is None);
    }
    assert(urls@.map_values(|s: String| s@) =~= wget_links(lines@));
    if urls.len() == 0 {
        return Err(PassageError::NoUrls);
    }
    Ok(urls)
}

/// `link` is `http://` or `https://` followed by at least one character, and
/// holds no white space.
pub open spec fn is_link(link: Seq<char>) -> bool {
    &&& (link.len() > 8 && link.take(8) == word_https()) || (link.len() > 7 && link.take(7)
        == word_http())
    &&& forall|i: int| 0 <= i < link.len() ==> !is_white_space(#[trigger] link[i])
}

proof fn lemma_find_url_is_link(t: Seq<char>, q: int)
    ensures
        find_url(t, q) matches Some((a, e)) ==> is_link(t.subrange(a, e)),
    decreases t.len() - q,
{
    if 0 <= q < t.len() {
        match url_end(t, q) {
            Some(e) => {
                let s = scheme_end(t, q)->0;
                lemma_non_ws_run_end(t, s);
                lemma_non_ws_run_end(t, s + 1);
                assert(e == non_ws_run_end(t, s + 1));
                assert(e > s);
                let link = t.subrange(q, e);
                if occurs_at(t, q, word_https()) {
                    assert(link.take(8) =~= t.subrange(q, q + 8));
                    assert(link.len() > 8 && link.take(8) == word_https());
                } else {
                    assert(link.take(7) =~= t.subrange(q, q + 7));
                    assert(t.subrange(q, q + 7) == word_http());
                    assert(link.len() > 7 && link.take(7) == word_http());
                }
                assert forall|i: int| 0 <= i < link.len() implies !is_white_space(#[trigger] link[i]) by {
                    if q + i < s {
                        if occurs_at(t, q, word_https()) {
                            assert(t.subrange(q, q + 8)[i] == link[i]);
                        } else {
                            assert(t.subrange(q, q + 7)[i] == link[i]);
                        }
                    } else {
                        assert(link[i] == t[q + i]);
                    }
                }
            },
            None => if t[q] != '\n' {
                lemma_find_url_is_link(t, q + 1);
            },
        }
    }
}

proof fn lemma_find_match_is_link(t: Seq<char>, pos: int)
    ensures
        find_match(t, pos) matches Some((a, e)) ==> is_link(t.subrange(a, e)),
    decreases t.len() - pos,
{
    if 0 <= pos < t.len() {
        if match_at(t, pos) is Some {
            lemma_find_url_is_link(t, pos + 4);
        } else {
            lemma_find_match_is_link(t, pos + 1);
        }
    }
}

proof fn lemma_links_from(t: Seq<char>, pos: int)
    ensures
        forall|i: int| 0 <= i < links_from(t, pos).len() ==> is_link(#[trigger] links_from(t, pos)[i]),
    decreases t.len() - pos,
{
    if 0 <= pos < t.len() {
        if let Some((q, e)) = find_match(t, pos) {
            if pos < e <= t.len() {
                lemma_find_match_is_link(t, pos);
                lemma_links_from(t, e);
                let rest = links_from(t, e);
                assert forall|i: int| 0 <= i < links_from(t, pos).len() implies is_link(
                    #[trigger] links_from(t, pos)[i],
                ) by {
                    if i > 0 {
                        assert(links_from(t, pos)[i] == rest[i - 1]);
                    }
                }
            }
        }
    }
}

/// Every link extracted from a script begins with `http://` or `https://`,
/// has at least one character after it, and holds no white space.
pub proof fn lemma_wget_links_are_links(t: Seq<char>)
    ensures
        forall|i: int| 0 <= i < wget_links(t).len() ==> is_link(#[trigger] wget_links(t)[i]),
{
    lemma_links_from(t, 0);
}

/// The position of the link to try after link `i` of `n` failed to download,
/// none when it was the last: links are tried in their order in the script.
pub open spec fn next_link(i: nat, n: nat) -> Option<nat> {
    if i + 1 < n {
        Some(i + 1)
    } else {
        None
    }
}

/// The link to try after link `i` of `n` links failed to download.
pub fn next_link_after_failure(i: usize, n: usize) -> (r: Option<usize>)
    ensures
        r matches Some(j) ==> next_link(i as nat, n as nat) == Some(j as nat),
        r is None ==> next_link(i as nat, n as nat) is None,
{
    if i < n && n - i > 1 {
        Some(i + 1)
    } else {
        None
    }
}

/// The link tried at attempt `k`, all earlier attempts having failed.
pub open spec fn link_at_attempt(k: nat, n: nat) -> Option<nat>
    decreases k,
{
    if k == 0 {
        if n > 0 {
            Some(0)
        } else {
            None
        }
    } else {
        match link_at_attempt((k - 1) as nat, n) {
            Some(i) => next_link(i, n),
            None => None,
        }
    }
}

/// While downloads fail, the links are tried one after the other in the
/// order of the script, each once, and then the search gives up.
pub proof fn lemma_links_tried_in_order(k: nat, n: nat)
    ensures
        k < n ==> link_at_attempt(k, n) == Some(k),
        k >= n ==> link_at_attempt(k, n) is None,
    decreases k,
{
    if k > 0 {
        lemma_links_tried_in_order((k - 1) as nat, n);
    }
}

/// A link `https?://` followed by a character other than white space starts at `q`.
pub open spec fn link_starts_at(t: Seq<char>, q: int) -> bool {
    ||| occurs_at(t, q, seq!['h', 't', 't', 'p', 's', ':', '/', '/']) && q + 8 < t.len()
        && !is_white_space(t[q + 8])
    ||| occurs_at(t, q, seq!['h', 't', 't', 'p', ':', '/', '/']) && q + 7 < t.len()
        && !is_white_space(t[q + 7])
}

proof fn lemma_find_url_reaches(t: Seq<char>, from: int, q: int)
    requires
        0 <= from <= q,
        link_starts_at(t, q),
        forall|j: int| from <= j < q ==> t[j] != '\n',
    ensures
        find_url(t, from) is Some,
    decreases q - from,
{
    if from < q {
        if url_end(t, from) is None {
            lemma_find_url_reaches(t, from + 1, q);
        }
    } else {
        if occurs_at(t, q, word_https()) {
        } else {
            assert(t.subrange(q, q + 7) == word_http());
            assert(t.subrange(q, q + 8)[4] != word_https()[4]);
        }
    }
}

proof fn lemma_find_match_reaches(t: Seq<char>, pos: int, p: int)
    requires
        0 <= pos <= p < t.len(),
        match_at(t, p) is Some,
    ensures
        find_match(t, pos) is Some,
    decreases p - pos,
{
    if pos < p && match_at(t, pos) is None {
        lemma_find_match_reaches(t, pos + 1, p);
    }
}

/// Wherever `wget` occurs, whatever character follows it, a link that starts
/// later on the same line makes the script yield a link: the extraction is
/// never empty then.
pub proof fn lemma_wget_then_link_yields_a_link(t: Seq<char>, p: int, q: int)
    requires
        occurs_at(t, p, seq!['w', 'g', 'e', 't']),
        p + 4 <= q,
        link_starts_at(t, q),
        forall|j: int| p + 4 <= j < q ==> t[j] != '\n',
    ensures
        wget_links(t).len() > 0,
{
    assert(word_wget() =~= seq!['w', 'g', 'e', 't']);
    lemma_find_url_reaches(t, p + 4, q);
    assert(match_at(t, p) is Some);
    lemma_find_match_reaches(t, 0, p);
    let (a, e) = find_match(t, 0)->0;
    lemma_find_match_bounds(t, 0);
}

proof fn lemma_find_match_bounds(t: Seq<char>, pos: int)
    ensures
        find_match(t, pos) matches Some((a, e)) ==> pos < e <= t.len(),
    decreases t.len() - pos,
{
    if 0 <= pos < t.len() {
        if match_at(t, pos) is Some {
            lemma_find_url_bounds(t, pos + 4);
        } else {
            lemma_find_match_bounds(t, pos + 1);
        }
    }
}

proof fn lemma_non_ws_run_end_skip(t: Seq<char>, j: int, k: int)
    requires
        0 <= j <= k <= t.len(),
        forall|x: int| j <= x < k ==> !is_white_space(#[trigger] t[x]),
    ensures
        non_ws_run_end(t, j) == non_ws_run_end(t, k),
    decreases k - j,
{
    if j < k {
        lemma_non_ws_run_end_skip(t, j + 1, k);
    }
}

proof fn lemma_url_end_link(t: Seq<char>, j: int)
    requires
        0 <= j,
    ensures
        url_end(t, j) is Some <==> link_starts_at(t, j),
        link_starts_at(t, j) ==> url_end(t, j) == Some(non_ws_run_end(t, j)),
{
    if occurs_at(t, j, word_https()) {
        assert(seq!['h', 't', 't', 'p', 's', ':', '/', '/'] =~= word_https());
        if j + 8 < t.len() && !is_white_space(t[j + 8]) {
            assert forall|x: int| j <= x < j + 8 implies !is_white_space(#[trigger] t[x]) by {
                assert(t[x] == t.subrange(j, j + 8)[x - j]);
            }
            lemma_non_ws_run_end_skip(t, j, j + 8);
        }
        if occurs_at(t, j, word_http()) {
            assert(t.subrange(j, j + 8)[4] != t.subrange(j, j + 7)[4]);
        }
    } else if occurs_at(t, j, word_http()) {
        assert(seq!['h', 't', 't', 'p', ':', '/', '/'] =~= word_http());
        if j + 7 < t.len() && !is_white_space(t[j + 7]) {
            assert forall|x: int| j <= x < j + 7 implies !is_white_space(#[trigger] t[x]) by {
                assert(t[x] == t.subrange(j, j + 7)[x - j]);
            }
            lemma_non_ws_run_end_skip(t, j, j + 7);
        }
    } else {
        assert(seq!['h', 't', 't', 'p', 's', ':', '/', '/'] =~= word_https());
        assert(seq!['h', 't', 't', 'p', ':', '/', '/'] =~= word_http());
    }
}

proof fn lemma_find_url_first(t: Seq<char>, from: int, q: int)
    requires
        0 <= from <= q,
        link_starts_at(t, q),
        forall|j: int| from <= j < q ==> t[j] != '\n' && !link_starts_at(t, j),
    ensures
        find_url(t, from) == Some((q, non_ws_run_end(t, q))),
    decreases q - from,
{
    lemma_url_end_link(t, from);
    if from < q {
        lemma_find_url_first(t, from + 1, q);
    }
}

/// The first link is the one of the first `wget`: when `wget` first occurs at
/// `p`, whatever character follows it, and `q` is the first position after it
/// on the same line where a link `https?://` starts, the first extracted link
/// is the run of characters other than white space from `q`.
pub proof fn lemma_first_link_follows_first_wget(t: Seq<char>, p: int, q: int)
    requires
        occurs_at(t, p, seq!['w', 'g', 'e', 't']),
        forall|x: int| 0 <= x < p ==> !occurs_at(t, x, seq!['w', 'g', 'e', 't']),
        p + 4 <= q,
        link_starts_at(t, q),
        forall|j: int| p + 4 <= j < q ==> t[j] != '\n' && !link_starts_at(t, j),
    ensures
        wget_links(t).len() > 0,
        wget_links(t)[0] == t.subrange(q, non_ws_run_end(t, q)),
{
    assert(word_wget() =~= seq!['w', 'g', 'e', 't']);
    lemma_find_url_first(t, p + 4, q);
    lemma_find_match_at_first(t, 0, p);
    lemma_find_match_bounds(t, 0);
}

proof fn lemma_find_match_at_first(t: Seq<char>, pos: int, p: int)
    requires
        0 <= pos <= p < t.len(),
        match_at(t, p) is Some,
        forall|x: int| 0 <= x < p ==> !occurs_at(t, x, word_wget()),
    ensures
        find_match(t, pos) == match_at(t, p),
    decreases p - pos,
{
    if pos < p {
        lemma_find_match_at_first(t, pos + 1, p);
    }
}

} // verus!

//! Locating the pieces of a watch page that the analysis starts from: the
//! video's identifier in its URL, and the JSON values embedded in its HTML.

use vstd::prelude::*;

use crate::storyboard::chars_of;

verus! {

/// `n` occurs in `h` starting at index `p`.
pub open spec fn occurs_at(h: Seq<char>, n: Seq<char>, p: int) -> bool {
    0 <= p && p + n.len() <= h.len() && h.subrange(p, p + n.len()) == n
}

/// `p` is the first index at or after `from` where `n` occurs in `h`.
pub open spec fn first_occurrence_from(h: Seq<char>, n: Seq<char>, from: int, p: int) -> bool {
    from <= p && occurs_at(h, n, p) && forall|q: int| from <= q < p ==> !#[trigger] occurs_at(h, n, q)
}

/// Whether `n` occurs in `h` starting at index `p`.
fn occurs_at_index(h: &Vec<char>, n: &Vec<char>, p: usize) -> (r: bool)
    requires
        p + n@.len() <= h@.len(),
    ensures
        r == occurs_at(h@, n@, p as int),
{
    let len = h.len();
    let mut k: usize = 0;
    while k < n.len()
        invariant
            len == h@.len(),
            p + n@.len() <= len,
            k <= n@.len(),
            forall|j: int| 0 <= j < k ==> h@[p + j] == n@[j],
        decreases n@.len() - k,
    {
        if h[p + k] != n[k] {
            assert(h@.subrange(p as int, p + n@.len())[k as int] != n@[k as int]);
            return false;
        }
        k = k + 1;
    }
    assert(h@.subrange(p as int, p + n@.len()) =~= n@);
    true
}

/// The first index at or after `from` where `n` occurs in `h`.
fn find_from(h: &Vec<char>, n: &Vec<char>, from: usize) -> (r: Option<usize>)
    ensures
        r matches Some(p) ==> first_occurrence_from(h@, n@, from as int, p as int),
        r is None ==> forall|p: int| from <= p ==> !#[trigger] occurs_at(h@, n@, p),
{
    if n.len() > h.len() {
        return None;
    }
    let last = h.len() - n.len();
    let mut q: usize = from;
    while q <= last
        invariant
            last == h@.len() - n@.len(),
            from <= q,
            forall|j: int| from <= j < q ==> !#[trigger] occurs_at(h@, n@, j),
        decreases last + 1 - q,
    {
        if occurs_at_index(h, n, q) {
            return Some(q);
        }
        if q == last {
            return None;
        }
        q = q + 1;
    }
    None
}

/// The value that follows the first occurrence of `open` in `text` and ends
/// before the first occurrence of `close` after it. The last character of
/// `open` is the first of the value, and is kept.
pub open spec fn value_between(text: Seq<char>, open: Seq<char>, close: Seq<char>) -> Option<
    Seq<char>,
> {
    if exists|p: int| first_occurrence_from(text, open, 0, p) {
        let p = choose|p: int| first_occurrence_from(text, open, 0, p);
        let start = p + open.len() - 1;
        if exists|e: int| first_occurrence_from(text, close, start, e) {
            let e = choose|e: int| first_occurrence_from(text, close, start, e);
            Some(text.subrange(start, e))
        } else {
            None
        }
    } else {
        None
    }
}

/// A first occurrence from a given index is unique.
proof fn lemma_first_occurrence_unique(h: Seq<char>, n: Seq<char>, from: int, p: int, q: int)
    requires
        first_occurrence_from(h, n, from, p),
        first_occurrence_from(h, n, from, q),
    ensures
        p == q,
{
    if p < q {
        assert(!occurs_at(h, n, p));
    } else if q < p {
        assert(!occurs_at(h, n, q));
    }
}

/// The text of a value embedded in a page: it starts with the last
/// character of the first `open` marker and runs up to the `close` marker
/// that follows. `None` when either marker is missing.
pub fn embedded_value(text: &str, open: &str, close: &str) -> (r: Option<String>)
    requires
        open@.len() > 0,
    ensures
        r matches Some(v) ==> value_between(text@, open@, close@) == Some(v@),
        r is None ==> value_between(text@, open@, close@) is None,
{
    let h = chars_of(text);
    let o = chars_of(open);
    let c = chars_of(close);
    let p = match find_from(&h, &o, 0) {
        Some(p) => p,
        None => {
            return None;
        },
    };
    proof {
        let chosen = choose|x: int| first_occurrence_from(text@, open@, 0, x);
        lemma_first_occurrence_unique(text@, open@, 0, p as int, chosen);
    }
    let text_len = h.len();
    assert(p + o@.len() <= text_len);
    let start = p + o.len() - 1;
    let e = match find_from(&h, &c, start) {
        Some(e) => e,
        None => {
            return None;
        },
    };
    proof {
        let chosen = choose|x: int| first_occurrence_from(text@, close@, start as int, x);
        lemma_first_occurrence_unique(text@, close@, start as int, e as int, chosen);
    }
    Some(text.substring_char(start, e).to_owned())
}

/// The marker that precedes a video's identifier in a watch URL.
pub open spec fn watch_marker() -> Seq<char> {
    seq!['w', 'a', 't', 'c', 'h', '?', 'v', '=']
}

/// The identifier of the video of a watch URL: what follows the first
/// `watch?v=`, up to the first `&` after it or to the end.
pub open spec fn video_id_spec(url: Seq<char>) -> Option<Seq<char>> {
    if exists|p: int| first_occurrence_from(url, watch_marker(), 0, p) {
        let p = choose|p: int| first_occurrence_from(url, watch_marker(), 0, p);
        let rest = url.skip(p + 8);
        if exists|e: int| first_occurrence_from(rest, seq!['&'], 0, e) {
            let e = choose|e: int| first_occurrence_from(rest, seq!['&'], 0, e);
            Some(rest.take(e))
        } else {
            Some(rest)
        }
    } else {
        None
    }
}

/// The identifier of the video that a watch URL points to, or `None` if the
/// URL has no `watch?v=`.
pub fn video_id(url: &str) -> (r: Option<String>)
    ensures
        r matches Some(v) ==> video_id_spec(url@) == Some(v@),
        r is None ==> video_id_spec(url@) is None,
{
    let h = chars_of(url);
    let marker = chars_of("watch?v=");
    let amp = chars_of("&");
    proof {
        reveal_strlit("watch?v=");
        reveal_strlit("&");
        assert(marker@ =~= watch_marker());
        assert(amp@ =~= seq!['&']);
    }
    let p = match find_from(&h, &marker, 0) {
        Some(p) => p,
        None => {
            return None;
        },
    };
    let ghost rest = url@.skip(p + 8);
    proof {
        let chosen = choose|x: int| first_occurrence_from(url@, watch_marker(), 0, x);
        lemma_first_occurrence_unique(url@, watch_marker(), 0, p as int, chosen);
    }
    let text_len = h.len();
    assert(p + 8 <= text_len);
    let start = p + 8;
    match find_from(&h, &amp, start) {
        Some(e) => {
            proof {
                assert forall|q: int| 0 <= q < e - start implies !#[trigger] occurs_at(
                    rest,
                    seq!['&'],
                    q,
                ) by {
                    assert(rest.subrange(q, q + 1) =~= h@.subrange(start + q, start + q + 1));
                    assert(!occurs_at(h@, amp@, start + q));
                }
                assert(rest.subrange(e - start, e - start + 1) =~= h@.subrange(
                    e as int,
                    e + 1,
                ));
                assert(first_occurrence_from(rest, seq!['&'], 0, e - start));
                let chosen = choose|x: int| first_occurrence_from(rest, seq!['&'], 0, x);
                lemma_first_occurrence_unique(rest, seq!['&'], 0, e - start, chosen);
                assert(rest.take(e - start) =~= url@.subrange(start as int, e as int));
            }
            Some(url.substring_char(start, e).to_owned())
        },
        None => {
            proof {
                assert forall|q: int| 0 <= q implies !#[trigger] occurs_at(rest, seq!['&'], q) by {
                    if occurs_at(rest, seq!['&'], q) {
                        assert(rest.subrange(q, q + 1) =~= h@.subrange(start + q, start + q + 1));
                        assert(occurs_at(h@, amp@, start + q));
                    }
                }
                assert(rest =~= url@.subrange(start as int, url@.len() as int));
            }
            Some(url.substring_char(start, h.len()).to_owned())
        },
    }
}

} // verus!

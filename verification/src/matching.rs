//! Locating the first embedded-script region of a text.
//!
//! A region is an occurrence of the opening tag followed, as early as
//! possible, by an occurrence of the closing tag: the leftmost opening tag
//! wins, and the nearest closing tag ends the region, so tag pairs do not
//! nest and the content of a region may span any characters, newlines
//! included.  Both tags are matched as literal text.

use vstd::prelude::*;
use vstd::string::StrSliceExecFns;

verus! {

/// True when `pat` occurs in `text` as a literal substring starting at `i`.
pub open spec fn occurs_at(text: Seq<char>, pat: Seq<char>, i: int) -> bool {
    0 <= i && i + pat.len() <= text.len() && text.subrange(i, i + pat.len()) == pat
}

/// The span `[s, e)` of `text` is its first embedded-script region:
/// `open` occurs at `s` and nowhere earlier, and `close` occurs at
/// `e - close.len()` and nowhere earlier at or after `s + open.len()`.
/// The closing tag may begin immediately after the opening tag (an empty
/// script), and nothing keeps further opening tags out of the content:
/// the nearest closing tag always terminates the region.
pub open spec fn is_first_region(
    text: Seq<char>,
    open: Seq<char>,
    close: Seq<char>,
    s: int,
    e: int,
) -> bool {
    &&& occurs_at(text, open, s)
    &&& (forall|j: int| 0 <= j < s ==> !occurs_at(text, open, j))
    &&& s + open.len() <= e - close.len()
    &&& occurs_at(text, close, e - close.len())
    &&& (forall|j: int| s + open.len() <= j < e - close.len() ==> !occurs_at(text, close, j))
}

/// True when `text` holds at least one embedded-script region.
pub open spec fn has_region(text: Seq<char>, open: Seq<char>, close: Seq<char>) -> bool {
    exists|s: int, e: int| is_first_region(text, open, close, s, e)
}

/// The bounds of the first embedded-script region of `text`.  Meaningful
/// only when `has_region(text, open, close)` holds; the region is then
/// unique (`lemma_first_region_unique`).
pub open spec fn first_region(text: Seq<char>, open: Seq<char>, close: Seq<char>) -> (int, int) {
    choose|p: (int, int)| is_first_region(text, open, close, p.0, p.1)
}

/// There is at most one first region: any span that satisfies
/// `is_first_region` is the one that `first_region` denotes.
pub proof fn lemma_first_region_unique(
    text: Seq<char>,
    open: Seq<char>,
    close: Seq<char>,
    s: int,
    e: int,
)
    requires
        is_first_region(text, open, close, s, e),
    ensures
        has_region(text, open, close),
        first_region(text, open, close) == (s, e),
{
    let p = (s, e);
    assert(is_first_region(text, open, close, p.0, p.1));
    assert(has_region(text, open, close));
    let q = choose|q: (int, int)| is_first_region(text, open, close, q.0, q.1);
    assert(is_first_region(text, open, close, q.0, q.1));
    if q.0 < s {
        assert(!occurs_at(text, open, q.0));
    }
    if s < q.0 {
        assert(!occurs_at(text, open, s));
    }
    assert(q.0 == s);
    if q.1 - close.len() < e - close.len() {
        assert(!occurs_at(text, close, q.1 - close.len()));
    }
    if e - close.len() < q.1 - close.len() {
        assert(!occurs_at(text, close, e - close.len()));
    }
    assert(q.1 == e);
}

/// A text without any occurrence of the opening tag has no embedded-script
/// region at all, whatever the closing tag: such text passes through the
/// expansion unchanged.
pub proof fn lemma_no_opening_tag_no_region(text: Seq<char>, open: Seq<char>, close: Seq<char>)
    requires
        forall|i: int| !occurs_at(text, open, i),
    ensures
        !has_region(text, open, close),
{
    assert forall|s: int, e: int| !is_first_region(text, open, close, s, e) by {
        if is_first_region(text, open, close, s, e) {
            assert(occurs_at(text, open, s));
            assert(!occurs_at(text, open, s));
        }
    }
}

/// A text without any occurrence of the closing tag has no embedded-script
/// region either: opening tags that are never closed are not an error,
/// and such text passes through the expansion unchanged.
pub proof fn lemma_no_closing_tag_no_region(text: Seq<char>, open: Seq<char>, close: Seq<char>)
    requires
        forall|i: int| !occurs_at(text, close, i),
    ensures
        !has_region(text, open, close),
{
    assert forall|s: int, e: int| !is_first_region(text, open, close, s, e) by {
        if is_first_region(text, open, close, s, e) {
            assert(occurs_at(text, close, e - close.len()));
            assert(!occurs_at(text, close, e - close.len()));
        }
    }
}

/// Whether `pat` occurs in `text` starting at character position `i`.
fn matches_at(text: &str, pat: &str, i: usize) -> (r: bool)
    requires
        i + pat@.len() <= text@.len(),
    ensures
        r == occurs_at(text@, pat@, i as int),
{
    let n: usize = text.unicode_len();
    let plen: usize = pat.unicode_len();
    let mut k: usize = 0;
    while k < plen
        invariant
            k <= plen,
            n == text@.len(),
            plen == pat@.len(),
            i + plen <= text@.len(),
            forall|m: int| 0 <= m < k ==> text@[i + m] == pat@[m],
        decreases plen - k,
    {
        let tc = text.get_char(i + k);
        let pc = pat.get_char(k);
        if tc != pc {
            assert(!occurs_at(text@, pat@, i as int)) by {
                if occurs_at(text@, pat@, i as int) {
                    assert(text@.subrange(i as int, i + plen)[k as int] == text@[i + k]);
                }
            }
            return false;
        }
        k += 1;
    }
    assert(text@.subrange(i as int, i + plen) =~= pat@);
    true
}

/// The first occurrence of `pat` in `text` at or after position `from`,
/// or `None` when there is none.
fn find_occurrence_from(text: &str, pat: &str, from: usize) -> (r: Option<usize>)
    requires
        pat@.len() >= 1,
    ensures
        match r {
            Some(i) => from <= i && occurs_at(text@, pat@, i as int) && (forall|j: int|
                from <= j < i ==> !occurs_at(text@, pat@, j)),
            None => forall|j: int| from <= j ==> !occurs_at(text@, pat@, j),
        },
{
    let n: usize = text.unicode_len();
    let plen: usize = pat.unicode_len();
    if plen > n || from > n - plen {
        return None;
    }
    let mut i: usize = from;
    while i <= n - plen
        invariant
            from <= i,
            plen >= 1,
            plen <= n,
            i <= n - plen + 1,
            n == text@.len(),
            plen == pat@.len(),
            forall|j: int| from <= j < i ==> !occurs_at(text@, pat@, j),
        decreases n - i,
    {
        if matches_at(text, pat, i) {
            return Some(i);
        }
        i += 1;
    }
    None
}

/// Finds the first embedded-script region of `text`: the span from the
/// leftmost occurrence of the opening tag through the nearest following
/// occurrence of the closing tag, both ends as character positions.
/// Returns `None` when no region exists, in particular when an opening tag
/// is never followed by a closing tag: such text is left alone.
pub fn find_first_region(text: &str, open: &str, close: &str) -> (r: Option<(usize, usize)>)
    requires
        open@.len() >= 1,
        close@.len() >= 1,
    ensures
        match r {
            Some(p) => is_first_region(text@, open@, close@, p.0 as int, p.1 as int),
            None => !has_region(text@, open@, close@),
        },
{
    let n: usize = text.unicode_len();
    let ol: usize = open.unicode_len();
    let cl: usize = close.unicode_len();
    match find_occurrence_from(text, open, 0) {
        None => {
            assert forall|s: int, e: int| !is_first_region(text@, open@, close@, s, e) by {
                if is_first_region(text@, open@, close@, s, e) {
                    assert(occurs_at(text@, open@, s));
                }
            }
            None
        },
        Some(s) => {
            assert(s + ol <= n);
            match find_occurrence_from(text, close, s + ol) {
                None => {
                    assert forall|s2: int, e2: int|
                        !is_first_region(text@, open@, close@, s2, e2) by {
                        if is_first_region(text@, open@, close@, s2, e2) {
                            if s2 < s {
                                assert(!occurs_at(text@, open@, s2));
                            }
                            if (s as int) < s2 {
                                assert(!occurs_at(text@, open@, s as int));
                            }
                            assert(s2 == s as int);
                            assert(occurs_at(text@, close@, e2 - close@.len()));
                            assert(!occurs_at(text@, close@, e2 - close@.len()));
                        }
                    }
                    None
                },
                Some(c) => {
                    assert(c + cl <= n);
                    Some((s, c + cl))
                },
            }
        },
    }
}

} // verus!

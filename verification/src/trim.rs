//! Trimming ASCII whitespace from both ends of a script's captured output.

use vstd::prelude::*;
use vstd::string::StrSliceExecFns;

verus! {

/// The ASCII whitespace characters: space, tab, line feed, form feed and
/// carriage return.
pub open spec fn is_ascii_whitespace_char(c: char) -> bool {
    c == ' ' || c == '\t' || c == '\n' || c == '\u{0c}' || c == '\r'
}

/// `s` without its leading ASCII whitespace.
pub open spec fn trim_front(s: Seq<char>) -> Seq<char>
    decreases s.len(),
{
    if s.len() > 0 && is_ascii_whitespace_char(s[0]) {
        trim_front(s.drop_first())
    } else {
        s
    }
}

/// `s` without its trailing ASCII whitespace.
pub open spec fn trim_back(s: Seq<char>) -> Seq<char>
    decreases s.len(),
{
    if s.len() > 0 && is_ascii_whitespace_char(s[s.len() - 1]) {
        trim_back(s.drop_last())
    } else {
        s
    }
}

/// `s` without leading and trailing ASCII whitespace.
pub open spec fn trimmed(s: Seq<char>) -> Seq<char> {
    trim_back(trim_front(s))
}

/// Whether `c` is ASCII whitespace.
fn is_ws(c: char) -> (r: bool)
    ensures
        r == is_ascii_whitespace_char(c),
{
    c == ' ' || c == '\t' || c == '\n' || c == '\u{0c}' || c == '\r'
}

/// Removes leading and trailing ASCII whitespace from `s`.
pub fn trim_ascii_whitespace(s: &str) -> (r: String)
    ensures
        r@ == trimmed(s@),
{
    let n: usize = s.unicode_len();
    let mut lo: usize = 0;
    proof {
        assert(s@.subrange(0, n as int) =~= s@);
    }
    loop
        invariant
            lo <= n,
            n == s@.len(),
            trim_front(s@) == trim_front(s@.subrange(lo as int, n as int)),
        ensures
            lo <= n,
            n == s@.len(),
            trim_front(s@) == s@.subrange(lo as int, n as int),
        decreases n - lo,
    {
        if lo >= n {
            proof {
                assert(s@.subrange(lo as int, n as int) =~= Seq::<char>::empty());
            }
            break;
        }
        let c = s.get_char(lo);
        if !is_ws(c) {
            proof {
                assert(s@.subrange(lo as int, n as int)[0] == s@[lo as int]);
            }
            break;
        }
        proof {
            assert(s@.subrange(lo as int, n as int)[0] == s@[lo as int]);
            assert(s@.subrange(lo as int, n as int).drop_first() =~= s@.subrange(
                lo as int + 1,
                n as int,
            ));
        }
        lo += 1;
    }
    let mut hi: usize = n;
    loop
        invariant
            lo <= hi <= n,
            n == s@.len(),
            trim_front(s@) == s@.subrange(lo as int, n as int),
            trim_back(s@.subrange(lo as int, n as int)) == trim_back(
                s@.subrange(lo as int, hi as int),
            ),
        ensures
            lo <= hi <= n,
            trimmed(s@) == s@.subrange(lo as int, hi as int),
        decreases hi,
    {
        if hi <= lo {
            proof {
                assert(s@.subrange(lo as int, hi as int) =~= Seq::<char>::empty());
            }
            break;
        }
        let c = s.get_char(hi - 1);
        if !is_ws(c) {
            proof {
                let t = s@.subrange(lo as int, hi as int);
                assert(t[t.len() - 1] == s@[hi as int - 1]);
            }
            break;
        }
        proof {
            let t = s@.subrange(lo as int, hi as int);
            assert(t[t.len() - 1] == s@[hi as int - 1]);
            assert(t.drop_last() =~= s@.subrange(lo as int, hi as int - 1));
        }
        hi -= 1;
    }
    s.substring_char(lo, hi).to_owned()
}

} // verus!

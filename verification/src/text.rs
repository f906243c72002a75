//! Characters and white space: indexing a string by character and trimming
//! it, as the first step of every conversion does.

use vstd::prelude::*;
use vstd::string::*;

verus! {

/// Whether `c` has the Unicode property `White_Space`.
pub uninterp spec fn white_space(c: char) -> bool;

/// `char::is_whitespace` of the standard library, which tells whether a
/// character has the Unicode property `White_Space`. Trusted: the result is
/// that property of `c`, which the library only names.
#[verifier::external_body]
fn is_white_space(c: char) -> (b: bool)
    ensures
        b == white_space(c),
{
    c.is_whitespace()
}

/// The first index at or after `i` whose character is not white space, or
/// the length of `s` when only white space follows.
pub open spec fn skip_white(s: Seq<char>, i: int) -> int
    decreases s.len() - i,
{
    if 0 <= i < s.len() && white_space(s[i]) {
        skip_white(s, i + 1)
    } else {
        i
    }
}

/// The end of the text that is left of `s[lo..hi]` when trailing white space
/// is dropped: the least `j >= lo` with only white space in `s[j..hi]`.
pub open spec fn drop_white(s: Seq<char>, lo: int, hi: int) -> int
    decreases hi - lo,
{
    if lo < hi <= s.len() && white_space(s[hi - 1]) {
        drop_white(s, lo, hi - 1)
    } else {
        hi
    }
}

/// `s` without its leading and trailing white space.
pub open spec fn trimmed(s: Seq<char>) -> Seq<char> {
    let a = skip_white(s, 0);
    s.subrange(a, drop_white(s, a, s.len() as int))
}

/// Where `skip_white` stops: inside the sequence, after white space only, and
/// in front of a character that is none.
pub proof fn lemma_skip_white(s: Seq<char>, i: int)
    requires
        0 <= i <= s.len(),
    ensures
        i <= skip_white(s, i) <= s.len(),
        forall|k: int| i <= k < skip_white(s, i) ==> white_space(#[trigger] s[k]),
        skip_white(s, i) < s.len() ==> !white_space(s[skip_white(s, i)]),
    decreases s.len() - i,
{
    if i < s.len() && white_space(s[i]) {
        lemma_skip_white(s, i + 1);
    }
}

/// Where `drop_white` stops: between `lo` and `hi`, in front of white space
/// only, and behind a character that is none.
pub proof fn lemma_drop_white(s: Seq<char>, lo: int, hi: int)
    requires
        0 <= lo <= hi <= s.len(),
    ensures
        lo <= drop_white(s, lo, hi) <= hi,
        forall|k: int| drop_white(s, lo, hi) <= k < hi ==> white_space(#[trigger] s[k]),
        lo < drop_white(s, lo, hi) ==> !white_space(s[drop_white(s, lo, hi) - 1]),
    decreases hi - lo,
{
    if lo < hi && white_space(s[hi - 1]) {
        lemma_drop_white(s, lo, hi - 1);
    }
}

/// Trimming keeps one stretch of the text, takes only white space away, and
/// leaves no white space at either end of what it keeps.
pub proof fn lemma_trimmed(s: Seq<char>)
    ensures
        exists|a: int, b: int|
            {
                &&& 0 <= a <= b <= s.len()
                &&& #[trigger] s.subrange(a, b) == trimmed(s)
                &&& forall|k: int| 0 <= k < a ==> white_space(#[trigger] s[k])
                &&& forall|k: int| b <= k < s.len() ==> white_space(#[trigger] s[k])
            },
        trimmed(s).len() > 0 ==> !white_space(trimmed(s).first()) && !white_space(
            trimmed(s).last(),
        ),
{
    let a = skip_white(s, 0);
    let b = drop_white(s, a, s.len() as int);
    lemma_skip_white(s, 0);
    lemma_drop_white(s, a, s.len() as int);
    assert(s.subrange(a, b) == trimmed(s));
}

/// The characters of `s`, in order, as a vector that is indexed in constant
/// time.
pub fn chars_of(s: &str) -> (v: Vec<char>)
    ensures
        v@ == s@,
{
    let mut v: Vec<char> = Vec::new();
    for c in it: s.chars()
        invariant
            v@ == it.seq().take(it.index@),
    {
        v.push(c);
    }
    v
}

/// `s` without its leading and trailing white space.
pub fn trim(s: &str) -> (r: &str)
    ensures
        r@ == trimmed(s@),
{
    let chars = chars_of(s);
    let n: usize = chars.len();
    let mut a: usize = 0;
    while a < n && is_white_space(chars[a])
        invariant
            a <= n,
            n == chars@.len(),
            skip_white(chars@, a as int) == skip_white(chars@, 0),
        decreases n - a,
    {
        a += 1;
    }
    let mut b: usize = n;
    while a < b && is_white_space(chars[b - 1])
        invariant
            a <= b <= n,
            n == chars@.len(),
            drop_white(chars@, a as int, b as int) == drop_white(chars@, a as int, n as int),
        decreases b - a,
    {
        b -= 1;
    }
    s.substring_char(a, b)
}

} // verus!

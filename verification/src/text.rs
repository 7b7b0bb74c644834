//! Whitespace trimming for the text-entry buffers.
//!
//! The buffers hold plain characters; before a commit they are trimmed
//! of leading and trailing whitespace (space, tab, newline, carriage
//! return) and turned into strings.

use vstd::prelude::*;

verus! {

/// The characters treated as trimmable whitespace.
pub open spec fn is_space(c: char) -> bool {
    c == ' ' || c == '\t' || c == '\n' || c == '\r'
}

/// The sequence without its leading whitespace.
pub open spec fn trim_front(s: Seq<char>) -> Seq<char>
    decreases s.len(),
{
    if s.len() == 0 {
        s
    } else if is_space(s.first()) {
        trim_front(s.drop_first())
    } else {
        s
    }
}

/// The sequence without its trailing whitespace.
pub open spec fn trim_back(s: Seq<char>) -> Seq<char>
    decreases s.len(),
{
    if s.len() == 0 {
        s
    } else if is_space(s.last()) {
        trim_back(s.drop_last())
    } else {
        s
    }
}

/// The sequence without leading and trailing whitespace.
pub open spec fn trim_spec(s: Seq<char>) -> Seq<char> {
    trim_back(trim_front(s))
}

/// A prefix of spaces followed by a non-space (or the end) pins down
/// `trim_front`.
proof fn lemma_trim_front_skip(s: Seq<char>, k: int)
    requires
        0 <= k <= s.len(),
        forall|t: int| 0 <= t < k ==> is_space(s[t]),
        k == s.len() || !is_space(s[k]),
    ensures
        trim_front(s) == s.skip(k),
    decreases k,
{
    if k == 0 {
        assert(trim_front(s) == s.skip(0)) by {
            if s.len() > 0 && is_space(s.first()) {
                assert(!is_space(s[0]));
            } else {
                assert(s.skip(0) =~= s);
            }
        }
    } else {
        assert(is_space(s.first()));
        lemma_trim_front_skip(s.drop_first(), k - 1);
        assert(s.drop_first().skip(k - 1) =~= s.skip(k));
    }
}

/// A suffix of spaces preceded by a non-space (or the start) pins down
/// `trim_back`.
proof fn lemma_trim_back_take(s: Seq<char>, k: int)
    requires
        0 <= k <= s.len(),
        forall|t: int| k <= t < s.len() ==> is_space(s[t]),
        k == 0 || !is_space(s[k - 1]),
    ensures
        trim_back(s) == s.take(k),
    decreases s.len() - k,
{
    if k == s.len() {
        assert(trim_back(s) == s.take(k)) by {
            if s.len() > 0 && is_space(s.last()) {
                assert(!is_space(s[k - 1]));
            } else {
                assert(s.take(k) =~= s);
            }
        }
    } else {
        assert(is_space(s.last()));
        lemma_trim_back_take(s.drop_last(), k);
        assert(s.drop_last().take(k) =~= s.take(k));
    }
}

/// Whether `c` counts as trimmable whitespace.
pub fn is_space_char(c: char) -> (b: bool)
    ensures
        b == is_space(c),
{
    c == ' ' || c == '\t' || c == '\n' || c == '\r'
}

/// The buffer without leading and trailing whitespace.
pub fn trimmed(v: &Vec<char>) -> (r: Vec<char>)
    ensures
        r@ == trim_spec(v@),
{
    let n = v.len();
    let mut start: usize = 0;
    while start < n && is_space_char(v[start])
        invariant
            start <= n,
            n == v@.len(),
            forall|t: int| 0 <= t < start ==> is_space(v@[t]),
        decreases n - start,
    {
        start += 1;
    }
    proof {
        lemma_trim_front_skip(v@, start as int);
    }
    let mut end: usize = n;
    while end > start && is_space_char(v[end - 1])
        invariant
            start <= end <= n,
            n == v@.len(),
            forall|t: int| 0 <= t < start ==> is_space(v@[t]),
            forall|t: int| end <= t < n ==> is_space(v@[t]),
        decreases end,
    {
        end -= 1;
    }
    proof {
        let f = trim_front(v@);
        assert(f =~= v@.skip(start as int));
        lemma_trim_back_take(f, end - start);
        assert(trim_spec(v@) =~= v@.skip(start as int).take(end - start));
    }
    let mut r: Vec<char> = Vec::new();
    let mut t: usize = start;
    while t < end
        invariant
            start <= t <= end <= n,
            n == v@.len(),
            r@.len() == t - start,
            forall|q: int| 0 <= q < r@.len() ==> r@[q] == v@[start + q],
        decreases end - t,
    {
        r.push(v[t]);
        t += 1;
    }
    proof {
        assert(r@ =~= v@.skip(start as int).take(end - start));
    }
    r
}

/// Relies on `String`'s `FromIterator<char>` implementation: collecting
/// a buffer of characters yields the string of exactly those
/// characters, in order.
#[verifier::external_body]
pub(crate) fn chars_to_string(v: &Vec<char>) -> (s: String)
    ensures
        s@ == v@,
{
    v.iter().collect()
}

} // verus!

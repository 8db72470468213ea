//! Whitespace in addresses and keys: which characters count, and the runs
//! of them that are skipped at either end of a text.

use vstd::prelude::*;

verus! {

/// Whether a character counts as whitespace when an address is split into tokens.
pub uninterp spec fn is_whitespace(c: char) -> bool;

/// `char::is_whitespace` of the standard library: whether `c` has the Unicode
/// property White_Space. The result is only given its name, `is_whitespace(c)`.
#[verifier::external_body]
pub(crate) fn char_is_whitespace(c: char) -> (b: bool)
    ensures
        b == is_whitespace(c),
{
    c.is_whitespace()
}

/// Whether any character of `s` is whitespace.
pub open spec fn has_whitespace(s: Seq<char>) -> bool {
    exists|i: int| 0 <= i < s.len() && is_whitespace(#[trigger] s[i])
}

/// `s` without its leading run of whitespace.
pub open spec fn skip_whitespace(s: Seq<char>) -> Seq<char>
    decreases s.len(),
{
    if s.len() > 0 && is_whitespace(s[0]) {
        skip_whitespace(s.drop_first())
    } else {
        s
    }
}

/// `s` without its leading run of characters that are not whitespace.
pub open spec fn skip_token(s: Seq<char>) -> Seq<char>
    decreases s.len(),
{
    if s.len() > 0 && !is_whitespace(s[0]) {
        skip_token(s.drop_first())
    } else {
        s
    }
}

/// `s` without its trailing run of whitespace.
pub open spec fn skip_trailing_whitespace(s: Seq<char>) -> Seq<char>
    decreases s.len(),
{
    if s.len() > 0 && is_whitespace(s.last()) {
        skip_trailing_whitespace(s.drop_last())
    } else {
        s
    }
}

/// `s` without the whitespace that surrounds it.
pub open spec fn trimmed(s: Seq<char>) -> Seq<char> {
    skip_trailing_whitespace(skip_whitespace(s))
}

/// What `skip_whitespace` leaves is the part of `s` that starts at its first
/// character that is not whitespace.
pub proof fn lemma_skip_whitespace(s: Seq<char>)
    ensures
        skip_whitespace(s).is_suffix_of(s),
        skip_whitespace(s).len() > 0 ==> !is_whitespace(skip_whitespace(s)[0]),
        forall|i: int|
            0 <= i < s.len() - skip_whitespace(s).len() ==> is_whitespace(#[trigger] s[i]),
    decreases s.len(),
{
    if s.len() > 0 && is_whitespace(s[0]) {
        let tail = s.drop_first();
        lemma_skip_whitespace(tail);
        let rest = skip_whitespace(tail);
        assert forall|i: int| 0 <= i < s.len() - rest.len() implies is_whitespace(
            #[trigger] s[i],
        ) by {
            if i > 0 {
                assert(s[i] == tail[i - 1]);
            }
        }
    }
}

/// What `skip_token` leaves is the part of `s` that starts at its first
/// whitespace character.
pub proof fn lemma_skip_token(s: Seq<char>)
    ensures
        skip_token(s).is_suffix_of(s),
        skip_token(s).len() > 0 ==> is_whitespace(skip_token(s)[0]),
        forall|i: int| 0 <= i < s.len() - skip_token(s).len() ==> !is_whitespace(#[trigger] s[i]),
    decreases s.len(),
{
    if s.len() > 0 && !is_whitespace(s[0]) {
        let tail = s.drop_first();
        lemma_skip_token(tail);
        let rest = skip_token(tail);
        assert forall|i: int| 0 <= i < s.len() - rest.len() implies !is_whitespace(
            #[trigger] s[i],
        ) by {
            if i > 0 {
                assert(s[i] == tail[i - 1]);
            }
        }
    }
}

/// Whether `text` holds a whitespace character.
pub fn contains_whitespace(text: &str) -> (found: bool)
    ensures
        found == has_whitespace(text@),
{
    let n: usize = text.unicode_len();
    let mut i: usize = 0;
    while i < n
        invariant
            n == text@.len(),
            i <= n,
            forall|j: int| 0 <= j < i ==> !is_whitespace(#[trigger] text@[j]),
        decreases n - i,
    {
        if char_is_whitespace(text.get_char(i)) {
            return true;
        }
        i += 1;
    }
    false
}

/// Removes the whitespace that surrounds `text`.
pub fn trim(text: &str) -> (inner: String)
    ensures
        inner@ == trimmed(text@),
{
    let n: usize = text.unicode_len();
    let mut start: usize = 0;
    assert(text@ =~= text@.subrange(0, n as int));
    while start < n && char_is_whitespace(text.get_char(start))
        invariant
            n == text@.len(),
            start <= n,
            skip_whitespace(text@) == skip_whitespace(text@.subrange(start as int, n as int)),
        decreases n - start,
    {
        assert(text@.subrange(start as int, n as int).drop_first() =~= text@.subrange(
            start as int + 1,
            n as int,
        ));
        start += 1;
    }
    let mut end: usize = n;
    while start < end && char_is_whitespace(text.get_char(end - 1))
        invariant
            n == text@.len(),
            start <= end <= n,
            trimmed(text@) == skip_trailing_whitespace(
                text@.subrange(start as int, end as int),
            ),
        decreases end - start,
    {
        assert(text@.subrange(start as int, end as int).drop_last() =~= text@.subrange(
            start as int,
            end as int - 1,
        ));
        end -= 1;
    }
    text.substring_char(start, end).to_owned()
}

} // verus!

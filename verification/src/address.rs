//! Shortening an address from the left, one whitespace-delimited token at a time.
//!
//! An address that finds no match is retried without its first word. The
//! functions here compute the shorter address and decide when nothing is left
//! to retry; the proof functions state that this always comes to an end.

use crate::whitespace::{
    char_is_whitespace, contains_whitespace, has_whitespace, is_whitespace, lemma_skip_token,
    lemma_skip_whitespace, skip_token, skip_whitespace,
};
use vstd::prelude::*;

verus! {

/// `s` with its first word dropped: the leading run of non-whitespace is
/// removed, then the whitespace that has become leading.
pub open spec fn without_first_token(s: Seq<char>) -> Seq<char> {
    skip_whitespace(skip_token(s))
}

/// Nothing is left to retry: the address is empty or down to a single token.
pub open spec fn exhausted(s: Seq<char>) -> bool {
    s.len() == 0 || !has_whitespace(s)
}

/// The number of whitespace-delimited tokens in `s`.
pub open spec fn token_count(s: Seq<char>) -> nat
    decreases s.len(),
{
    let rest = skip_whitespace(s);
    if rest.len() == 0 {
        0
    } else {
        proof {
            lemma_skip_whitespace(s);
            lemma_skip_token(rest);
        }
        1 + token_count(skip_token(rest))
    }
}

/// `s` after `rounds` of dropping its first token.
pub open spec fn truncated(s: Seq<char>, rounds: nat) -> Seq<char>
    decreases rounds,
{
    if rounds == 0 {
        s
    } else {
        truncated(without_first_token(s), (rounds - 1) as nat)
    }
}

/// The addresses that are queried after `s` itself when no query finds a
/// match: each is the one before it without its first token, and the list ends
/// before the first that is exhausted.
pub open spec fn retry_candidates(s: Seq<char>) -> Seq<Seq<char>>
    decreases s.len(),
{
    let shorter = without_first_token(s);
    if exhausted(shorter) {
        Seq::empty()
    } else {
        proof {
            lemma_without_first_token(s);
        }
        seq![shorter] + retry_candidates(shorter)
    }
}

/// Dropping the first token only ever removes characters from the left, removes
/// at least one unless the address is empty, and leaves no leading whitespace.
pub proof fn lemma_without_first_token(s: Seq<char>)
    ensures
        without_first_token(s).is_suffix_of(s),
        s.len() > 0 ==> without_first_token(s).len() < s.len(),
        without_first_token(s).len() > 0 ==> !is_whitespace(without_first_token(s)[0]),
{
    lemma_skip_token(s);
    lemma_skip_whitespace(skip_token(s));
}

/// The least number of rounds after which `s` is exhausted.
pub open spec fn rounds_until_exhausted(s: Seq<char>) -> nat
    decreases s.len(),
{
    if exhausted(s) {
        0
    } else {
        proof {
            lemma_without_first_token(s);
        }
        1 + rounds_until_exhausted(without_first_token(s))
    }
}

/// Dropping the first token takes one token away when the address starts with
/// one, and none when it is empty or starts with whitespace.
pub proof fn lemma_token_count_drop(s: Seq<char>)
    ensures
        token_count(without_first_token(s)) == if s.len() > 0 && !is_whitespace(s[0]) {
            token_count(s) - 1
        } else {
            token_count(s) as int
        },
{
    lemma_skip_token(s);
    let after = skip_token(s);
    lemma_skip_whitespace(after);
    let shorter = skip_whitespace(after);
    assert(skip_whitespace(shorter) == shorter);
    assert(token_count(shorter) == token_count(after));
    if s.len() > 0 && !is_whitespace(s[0]) {
        assert(skip_whitespace(s) == s);
    } else {
        assert(after == s);
    }
}

/// After `rounds_until_exhausted(s)` rounds the address is empty or a single
/// token, and after fewer rounds it is neither.
pub proof fn lemma_rounds_reach_exhaustion(s: Seq<char>)
    ensures
        exhausted(truncated(s, rounds_until_exhausted(s))),
        forall|rounds: nat|
            rounds < rounds_until_exhausted(s) ==> !exhausted(#[trigger] truncated(s, rounds)),
    decreases s.len(),
{
    if !exhausted(s) {
        lemma_without_first_token(s);
        let shorter = without_first_token(s);
        lemma_rounds_reach_exhaustion(shorter);
        assert forall|rounds: nat| rounds < rounds_until_exhausted(s) implies !exhausted(
            #[trigger] truncated(s, rounds),
        ) by {
            if rounds > 0 {
                assert(truncated(s, rounds) == truncated(shorter, (rounds - 1) as nat));
            }
        }
    }
}

/// An address that holds whitespace and ends in a character that is not
/// whitespace keeps that last character when its first token is dropped.
proof fn lemma_drop_keeps_last(s: Seq<char>)
    requires
        has_whitespace(s),
        !is_whitespace(s.last()),
    ensures
        without_first_token(s).len() > 0,
        without_first_token(s).last() == s.last(),
{
    let j = choose|j: int| 0 <= j < s.len() && is_whitespace(#[trigger] s[j]);
    lemma_skip_token(s);
    let after = skip_token(s);
    if s.len() - after.len() > j {
        assert(!is_whitespace(s[j]));
    }
    assert(after.last() == s.last());
    lemma_skip_whitespace(after);
    let shorter = skip_whitespace(after);
    if shorter.len() == 0 {
        assert(is_whitespace(after[after.len() - 1]));
    }
}

/// For an address that starts with a token, the rounds until it is exhausted
/// are at most its tokens, and fewer where it does not end in whitespace.
proof fn lemma_rounds_bound_from_token(s: Seq<char>)
    requires
        s.len() > 0,
        !is_whitespace(s[0]),
    ensures
        rounds_until_exhausted(s) <= token_count(s),
        !is_whitespace(s.last()) ==> rounds_until_exhausted(s) + 1 <= token_count(s),
    decreases s.len(),
{
    assert(skip_whitespace(s) == s);
    if !exhausted(s) {
        let shorter = without_first_token(s);
        lemma_without_first_token(s);
        lemma_token_count_drop(s);
        if !is_whitespace(s.last()) {
            lemma_drop_keeps_last(s);
        }
        if shorter.len() > 0 {
            lemma_rounds_bound_from_token(shorter);
        }
    }
}

/// Truncation terminates: dropping the first token again and again reaches the
/// empty address or a single token after at most as many rounds as the address
/// has tokens. An address that both starts and ends with whitespace is left
/// out: it takes one round more than it has tokens.
pub proof fn lemma_truncation_terminates(s: Seq<char>)
    requires
        !(s.len() > 0 && is_whitespace(s[0]) && is_whitespace(s.last())),
    ensures
        rounds_until_exhausted(s) <= token_count(s),
        exhausted(truncated(s, rounds_until_exhausted(s))),
{
    lemma_rounds_reach_exhaustion(s);
    if s.len() > 0 {
        if !is_whitespace(s[0]) {
            lemma_rounds_bound_from_token(s);
        } else {
            assert(has_whitespace(s));
            assert(skip_token(s) == s);
            lemma_drop_keeps_last(s);
            lemma_without_first_token(s);
            lemma_token_count_drop(s);
            lemma_rounds_bound_from_token(without_first_token(s));
        }
    }
}

/// Whatever the address, one round more than it has tokens is enough.
pub proof fn lemma_truncation_terminates_always(s: Seq<char>)
    ensures
        rounds_until_exhausted(s) <= token_count(s) + 1,
        exhausted(truncated(s, rounds_until_exhausted(s))),
{
    lemma_rounds_reach_exhaustion(s);
    if !exhausted(s) {
        let shorter = without_first_token(s);
        lemma_without_first_token(s);
        lemma_token_count_drop(s);
        if shorter.len() > 0 {
            lemma_rounds_bound_from_token(shorter);
        }
    }
}

/// The retries of one address are at most as many as its tokens: every
/// address is queried at most `1 + token_count` times.
pub proof fn lemma_retries_bounded(s: Seq<char>)
    ensures
        retry_candidates(s).len() <= token_count(s),
{
    let shorter = without_first_token(s);
    lemma_without_first_token(s);
    lemma_token_count_drop(s);
    lemma_retry_count(s);
    if shorter.len() > 0 {
        lemma_rounds_bound_from_token(shorter);
    }
}

/// There are as many retries as it takes rounds to exhaust the address once
/// its first token is gone.
pub proof fn lemma_retry_count(s: Seq<char>)
    ensures
        retry_candidates(s).len() == rounds_until_exhausted(without_first_token(s)),
    decreases s.len(),
{
    let shorter = without_first_token(s);
    if !exhausted(shorter) {
        lemma_without_first_token(s);
        lemma_retry_count(shorter);
    }
}

/// The retried addresses are the address after one round of truncation, after
/// two, and so on.
pub proof fn lemma_retries_are_truncations(s: Seq<char>)
    ensures
        forall|i: int|
            0 <= i < retry_candidates(s).len() ==> #[trigger] retry_candidates(s)[i] == truncated(
                s,
                (i + 1) as nat,
            ),
    decreases s.len(),
{
    let shorter = without_first_token(s);
    if !exhausted(shorter) {
        lemma_without_first_token(s);
        lemma_retries_are_truncations(shorter);
        assert forall|i: int| 0 <= i < retry_candidates(s).len() implies #[trigger] retry_candidates(
            s,
        )[i] == truncated(s, (i + 1) as nat) by {
            if i > 0 {
                assert(retry_candidates(s)[i] == retry_candidates(shorter)[i - 1]);
                assert(truncated(s, (i + 1) as nat) == truncated(shorter, i as nat));
            } else {
                assert(truncated(s, 1) == truncated(shorter, 0));
            }
        }
    }
}

/// Truncation is monotone: every retried address is the one before it without
/// its first token, a proper suffix of it and strictly shorter, so no address
/// is ever restored.
pub proof fn lemma_retries_shrink(s: Seq<char>)
    ensures
        forall|i: int|
            0 <= i < retry_candidates(s).len() ==> {
                let before = if i == 0 {
                    s
                } else {
                    retry_candidates(s)[i - 1]
                };
                &&& #[trigger] retry_candidates(s)[i] == without_first_token(before)
                &&& retry_candidates(s)[i].is_suffix_of(before)
                &&& retry_candidates(s)[i].len() < before.len()
                &&& !exhausted(retry_candidates(s)[i])
            },
    decreases s.len(),
{
    let shorter = without_first_token(s);
    if !exhausted(shorter) {
        lemma_without_first_token(s);
        lemma_retries_shrink(shorter);
        let rest = retry_candidates(shorter);
        assert forall|i: int| 0 <= i < retry_candidates(s).len() implies {
            let before = if i == 0 {
                s
            } else {
                retry_candidates(s)[i - 1]
            };
            &&& #[trigger] retry_candidates(s)[i] == without_first_token(before)
            &&& retry_candidates(s)[i].is_suffix_of(before)
            &&& retry_candidates(s)[i].len() < before.len()
            &&& !exhausted(retry_candidates(s)[i])
        } by {
            if i > 0 {
                assert(retry_candidates(s)[i] == rest[i - 1]);
                if i > 1 {
                    assert(retry_candidates(s)[i - 1] == rest[i - 2]);
                }
            }
        }
    }
}

/// Whether retrying stops at `address`: it is empty, or holds no whitespace and
/// so is a single token.
pub fn is_exhausted(address: &str) -> (stop: bool)
    ensures
        stop == exhausted(address@),
{
    address.unicode_len() == 0 || !contains_whitespace(address)
}

/// Drops the first word of `address`: its leading run of non-whitespace
/// characters, then the whitespace that follows it.
pub fn drop_first_token(address: &str) -> (shorter: String)
    ensures
        shorter@ == without_first_token(address@),
{
    let n: usize = address.unicode_len();
    let mut i: usize = 0;
    assert(address@ =~= address@.subrange(0, n as int));
    while i < n && !char_is_whitespace(address.get_char(i))
        invariant
            n == address@.len(),
            i <= n,
            skip_token(address@) == skip_token(address@.subrange(i as int, n as int)),
        decreases n - i,
    {
        assert(address@.subrange(i as int, n as int).drop_first() =~= address@.subrange(
            i as int + 1,
            n as int,
        ));
        i += 1;
    }
    let ghost after_token = address@.subrange(i as int, n as int);
    assert(skip_token(address@) == after_token);
    while i < n && char_is_whitespace(address.get_char(i))
        invariant
            n == address@.len(),
            i <= n,
            skip_whitespace(after_token) == skip_whitespace(
                address@.subrange(i as int, n as int),
            ),
        decreases n - i,
    {
        assert(address@.subrange(i as int, n as int).drop_first() =~= address@.subrange(
            i as int + 1,
            n as int,
        ));
        i += 1;
    }
    address.substring_char(i, n).to_owned()
}

} // verus!

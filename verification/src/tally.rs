//! Counting how often each value occurs in a sequence.

use itertools::Itertools;
use std::collections::HashMap;
use vstd::prelude::*;

verus! {

/// How many positions of `s` hold `x`.
pub open spec fn occurrences<T>(s: Seq<T>, x: T) -> nat
    decreases s.len(),
{
    if s.len() == 0 {
        0
    } else {
        occurrences(s.drop_last(), x) + if s.last() == x {
            1nat
        } else {
            0nat
        }
    }
}

/// The map that sends each byte occurring in `codes` to the number of its occurrences.
pub open spec fn tally(codes: Seq<u8>) -> Map<u8, usize> {
    Map::new(|k: u8| occurrences(codes, k) > 0, |k: u8| occurrences(codes, k) as usize)
}

/// Calls `itertools::Itertools::counts` on the bytes of `codes`.
///
/// Trusted: the returned map holds exactly the bytes that occur in `codes`, each with the
/// number of times it occurs, as the documentation of `counts` says.
#[verifier::external_body]
pub(crate) fn counts(codes: &Vec<u8>) -> (m: HashMap<u8, usize>)
    ensures
        m@ == tally(codes@),
{
    codes.iter().copied().counts()
}

/// Nothing occurs more often than the sequence is long.
pub proof fn lemma_occurrences_bound<T>(s: Seq<T>, x: T)
    ensures
        occurrences(s, x) <= s.len(),
    decreases s.len(),
{
    if s.len() > 0 {
        lemma_occurrences_bound(s.drop_last(), x);
    }
}

/// Appending one element adds one occurrence of that element and none of any other.
pub proof fn lemma_occurrences_push<T>(s: Seq<T>, y: T, x: T)
    ensures
        occurrences(s.push(y), x) == occurrences(s, x) + if y == x {
            1nat
        } else {
            0nat
        },
{
    assert(s.push(y).drop_last() =~= s);
}

/// Replacing one element takes one occurrence from the old value and gives one to the new.
pub proof fn lemma_occurrences_update<T>(s: Seq<T>, i: int, v: T, x: T)
    requires
        0 <= i < s.len(),
    ensures
        occurrences(s.update(i, v), x) == occurrences(s, x) - (if s[i] == x {
            1int
        } else {
            0int
        }) + (if v == x {
            1int
        } else {
            0int
        }),
    decreases s.len(),
{
    let u = s.update(i, v);
    if i == s.len() - 1 {
        assert(u.drop_last() =~= s.drop_last());
    } else {
        assert(u.drop_last() =~= s.drop_last().update(i, v));
        lemma_occurrences_update(s.drop_last(), i, v, x);
    }
}

/// A longer prefix holds the occurrences of the shorter one and those of the element
/// that it adds.
pub proof fn lemma_occurrences_take<T>(s: Seq<T>, n: int, x: T)
    requires
        0 <= n < s.len(),
    ensures
        occurrences(s.take(n + 1), x) == occurrences(s.take(n), x) + if s[n] == x {
            1nat
        } else {
            0nat
        },
{
    assert(s.take(n + 1).drop_last() =~= s.take(n));
}

} // verus!

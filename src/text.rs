//! Substring search over character sequences.

use vstd::prelude::*;
use vstd::std_specs::iter::IteratorSpec;

verus! {

/// `p` occurs in `s` starting at position `i`.
pub open spec fn occurs_at(s: Seq<char>, p: Seq<char>, i: int) -> bool {
    0 <= i && i + p.len() <= s.len() && s.subrange(i, i + p.len()) == p
}

/// `i` is the first position at or after `k` where `p` occurs in `s`.
pub open spec fn first_from(s: Seq<char>, p: Seq<char>, k: int, i: int) -> bool {
    k <= i && occurs_at(s, p, i) && forall|j: int| k <= j < i ==> !occurs_at(s, p, j)
}

/// The first position at or after `k` where `p` occurs in `s`, if any.
pub open spec fn find_spec(s: Seq<char>, p: Seq<char>, k: int) -> Option<int> {
    if exists|i: int| first_from(s, p, k, i) {
        Some(choose|i: int| first_from(s, p, k, i))
    } else {
        None
    }
}

/// Two first occurrences from the same start are the same position.
pub proof fn lemma_first_unique(s: Seq<char>, p: Seq<char>, k: int, i: int, j: int)
    requires
        first_from(s, p, k, i),
        first_from(s, p, k, j),
    ensures
        i == j,
{
}

/// The characters of `s`, in order.
pub fn chars_of(s: &str) -> (r: Vec<char>)
    ensures
        r@ == s@,
{
    broadcast use vstd::string::axiom_spec_iter, vstd::string::next_postcondition;

    let mut it = s.chars();
    let mut out: Vec<char> = Vec::new();
    loop
        invariant
            it.obeys_prophetic_iter_laws(),
            it.decrease() is Some,
            out@ + it.remaining() == s@,
        ensures
            out@ == s@,
        decreases it.decrease()->0,
    {
        match it.next() {
            Some(c) => {
                out.push(c);
            },
            None => {
                assert(out@ =~= s@);
                break;
            },
        }
    }
    out
}

/// Whether `p` occurs in `s` starting at position `i`.
pub fn matches_at(s: &Vec<char>, p: &Vec<char>, i: usize) -> (r: bool)
    ensures
        r == occurs_at(s@, p@, i as int),
{
    if i > s.len() || p.len() > s.len() - i {
        return false;
    }
    let mut j: usize = 0;
    while j < p.len()
        invariant
            s@.len() <= usize::MAX,
            i <= s@.len(),
            p@.len() <= s@.len() - i,
            j <= p@.len(),
            forall|t: int| 0 <= t < j ==> s@[i + t] == p@[t],
        decreases p@.len() - j,
    {
        if s[i + j] != p[j] {
            assert(s@.subrange(i as int, i + p@.len())[j as int] != p@[j as int]);
            return false;
        }
        j = j + 1;
    }
    assert(s@.subrange(i as int, i + p@.len()) =~= p@);
    true
}

/// The first position at or after `k` where `p` occurs in `s`.
pub fn find_from(s: &Vec<char>, p: &Vec<char>, k: usize) -> (r: Option<usize>)
    ensures
        match r {
            Some(i) => find_spec(s@, p@, k as int) == Some(i as int) && first_from(
                s@,
                p@,
                k as int,
                i as int,
            ),
            None => find_spec(s@, p@, k as int) is None,
        },
{
    if p.len() > s.len() {
        proof {
            assert(!exists|i: int| first_from(s@, p@, k as int, i));
        }
        return None;
    }
    let last: usize = s.len() - p.len();
    let mut i: usize = k;
    while i <= last
        invariant
            s@.len() <= usize::MAX,
            last + p@.len() == s@.len(),
            k <= i,
            forall|j: int| k <= j < i ==> !occurs_at(s@, p@, j),
        decreases last + 1 - i,
    {
        if matches_at(s, p, i) {
            proof {
                assert(first_from(s@, p@, k as int, i as int));
                let c = choose|c: int| first_from(s@, p@, k as int, c);
                lemma_first_unique(s@, p@, k as int, i as int, c);
            }
            return Some(i);
        }
        if i == last {
            proof {
                assert forall|j: int| k <= j implies !occurs_at(s@, p@, j) by {
                    if j > i {
                        assert(j + p@.len() > s@.len());
                    }
                }
                assert(!exists|c: int| first_from(s@, p@, k as int, c));
            }
            return None;
        }
        i = i + 1;
    }
    proof {
        assert forall|j: int| k <= j implies !occurs_at(s@, p@, j) by {
            if j >= i {
                assert(j + p@.len() > s@.len());
            }
        }
        assert(!exists|c: int| first_from(s@, p@, k as int, c));
    }
    None
}

} // verus!

//! The match policy: where a target prefix must occur inside a
//! candidate address string for the candidate to count as a match.
//!
//! Both strings are expected to be normalized consistently (both
//! relaxed, or both exact) before they are compared here.

use crate::address::str_chars;
use vstd::prelude::*;

verus! {

/// `t` occurs in `c` as a contiguous substring starting at offset `i`.
pub open spec fn occurs_at(c: Seq<char>, t: Seq<char>, i: int) -> bool {
    0 <= i && i + t.len() <= c.len() && c.subrange(i, i + t.len() as int) == t
}

/// `i` is the offset of the first occurrence of `t` in `c`.
pub open spec fn first_occurrence_at(c: Seq<char>, t: Seq<char>, i: int) -> bool {
    occurs_at(c, t, i) && (forall|j: int| 0 <= j < i ==> !occurs_at(c, t, j))
}

/// How a candidate is tested against the target.
#[derive(Clone, Copy, Debug)]
pub enum MatchMode {
    /// The first occurrence of the target must start at offset 0, 2 or
    /// 4: the start of the address, right after the two-character
    /// network marker, or right after the two-character checksum.
    Anchored,
    /// The target may occur anywhere in the candidate.
    Substring,
}

/// The match policy over character sequences.
pub open spec fn spec_is_match(c: Seq<char>, t: Seq<char>, mode: MatchMode) -> bool {
    match mode {
        MatchMode::Substring => exists|i: int| occurs_at(c, t, i),
        MatchMode::Anchored => exists|i: int|
            first_occurrence_at(c, t, i) && (i == 0 || i == 2 || i == 4),
    }
}

fn occurs_here(c: &Vec<char>, t: &Vec<char>, i: usize) -> (r: bool)
    requires
        i + t@.len() <= c@.len(),
    ensures
        r == occurs_at(c@, t@, i as int),
{
    let n = c.len();
    let m = t.len();
    let mut k: usize = 0;
    while k < m
        invariant
            n == c@.len(),
            m == t@.len(),
            i + m <= n,
            k <= m,
            forall|j: int| 0 <= j < k ==> c@[i + j] == t@[j],
        decreases m - k,
    {
        if c[i + k] != t[k] {
            proof {
                if occurs_at(c@, t@, i as int) {
                    assert(c@.subrange(i as int, i + t@.len())[k as int] == t@[k as int]);
                }
            }
            return false;
        }
        k = k + 1;
    }
    proof {
        assert(c@.subrange(i as int, i + t@.len()) =~= t@);
    }
    true
}

/// The offset of the first occurrence of `t` in `c`, if `t` occurs at
/// all.
pub fn find_first(c: &Vec<char>, t: &Vec<char>) -> (r: Option<usize>)
    ensures
        match r {
            Some(i) => first_occurrence_at(c@, t@, i as int),
            None => forall|j: int| !occurs_at(c@, t@, j),
        },
{
    if t.len() > c.len() {
        return None;
    }
    if t.len() == 0 {
        proof {
            assert(c@.subrange(0, 0) =~= t@);
        }
        return Some(0);
    }
    let n = c.len();
    let last = n - t.len();
    let mut i: usize = 0;
    while i <= last
        invariant
            n == c@.len(),
            1 <= t@.len() <= c@.len(),
            last == c@.len() - t@.len(),
            i <= last + 1,
            forall|j: int| 0 <= j < i ==> !occurs_at(c@, t@, j),
        decreases last + 1 - i,
    {
        if occurs_here(c, t, i) {
            return Some(i);
        }
        i = i + 1;
    }
    proof {
        assert forall|j: int| !occurs_at(c@, t@, j) by {
            if j > last {
                assert(j + t@.len() > c@.len());
            }
        }
    }
    None
}

/// Whether the candidate satisfies the match policy for the target
/// under the given mode.
pub fn is_match(candidate: &str, target: &str, mode: MatchMode) -> (r: bool)
    ensures
        r == spec_is_match(candidate@, target@, mode),
{
    let c = str_chars(candidate);
    let t = str_chars(target);
    let found = find_first(&c, &t);
    match mode {
        MatchMode::Substring => {
            match found {
                Some(_) => true,
                None => false,
            }
        },
        MatchMode::Anchored => {
            match found {
                Some(i) => {
                    let ok = i == 0 || i == 2 || i == 4;
                    proof {
                        if !ok {
                            assert forall|j: int|
                                !(first_occurrence_at(c@, t@, j) && (j == 0 || j == 2 || j == 4))
                            by {
                                if first_occurrence_at(c@, t@, j) {
                                    if j < i as int {
                                        assert(!occurs_at(c@, t@, j));
                                    } else if j > i as int {
                                        assert(!occurs_at(c@, t@, i as int));
                                    }
                                }
                            }
                        }
                    }
                    ok
                },
                None => false,
            }
        },
    }
}

} // verus!

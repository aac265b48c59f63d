//! Character-level scanning helpers shared by the parsers: first and last
//! occurrence of a character, with recursive specifications and their
//! first/last-occurrence characterizations.

use vstd::prelude::*;
use vstd::string::*;

verus! {

/// Index of the first occurrence of `c` in `s`, if any.
pub open spec fn first_at(s: Seq<char>, c: char) -> Option<int>
    decreases s.len(),
{
    if s.len() == 0 {
        None
    } else if s[0] == c {
        Some(0int)
    } else {
        match first_at(s.subrange(1, s.len() as int), c) {
            None => None,
            Some(i) => Some(i + 1),
        }
    }
}

/// Index of the last occurrence of `c` in `s`, if any.
pub open spec fn last_at(s: Seq<char>, c: char) -> Option<int>
    decreases s.len(),
{
    if s.len() == 0 {
        None
    } else if s[s.len() - 1] == c {
        Some(s.len() - 1)
    } else {
        last_at(s.subrange(0, s.len() - 1), c)
    }
}

/// `first_at` returns the smallest index holding `c`, or `None` when `c`
/// does not occur.
pub proof fn lemma_first_at(s: Seq<char>, c: char)
    ensures
        match first_at(s, c) {
            Some(i) => 0 <= i < s.len() && s[i] == c && (forall|k: int| 0 <= k < i ==> s[k] != c),
            None => forall|k: int| 0 <= k < s.len() ==> s[k] != c,
        },
    decreases s.len(),
{
    if s.len() == 0 {
    } else if s[0] == c {
    } else {
        let t = s.subrange(1, s.len() as int);
        lemma_first_at(t, c);
        match first_at(t, c) {
            None => {
                assert forall|k: int| 0 <= k < s.len() implies s[k] != c by {
                    if k > 0 {
                        assert(t[k - 1] == s[k]);
                    }
                }
            },
            Some(i) => {
                assert(t[i] == s[i + 1]);
                assert forall|k: int| 0 <= k < i + 1 implies s[k] != c by {
                    if k > 0 {
                        assert(t[k - 1] == s[k]);
                    }
                }
            },
        }
    }
}

/// A position that holds `c` with no earlier occurrence pins `first_at` down.
pub proof fn lemma_first_at_is(s: Seq<char>, c: char, i: int)
    requires
        0 <= i < s.len(),
        s[i] == c,
        forall|k: int| 0 <= k < i ==> s[k] != c,
    ensures
        first_at(s, c) == Some(i),
{
    lemma_first_at(s, c);
    match first_at(s, c) {
        None => {
            assert(false);
        },
        Some(j) => {
            if j < i {
                assert(s[j] != c);
            }
            if i < j {
                assert(s[i] != c);
            }
        },
    }
}

/// `last_at` returns the largest index holding `c`, or `None` when `c`
/// does not occur.
pub proof fn lemma_last_at(s: Seq<char>, c: char)
    ensures
        match last_at(s, c) {
            Some(i) => 0 <= i < s.len() && s[i] == c && (forall|k: int|
                i < k < s.len() ==> s[k] != c),
            None => forall|k: int| 0 <= k < s.len() ==> s[k] != c,
        },
    decreases s.len(),
{
    if s.len() == 0 {
    } else if s[s.len() - 1] == c {
    } else {
        let t = s.subrange(0, s.len() - 1);
        lemma_last_at(t, c);
        assert forall|k: int| 0 <= k < s.len() - 1 implies s[k] == t[k] by {}
    }
}

/// A position that holds `c` with no later occurrence pins `last_at` down.
pub proof fn lemma_last_at_is(s: Seq<char>, c: char, i: int)
    requires
        0 <= i < s.len(),
        s[i] == c,
        forall|k: int| i < k < s.len() ==> s[k] != c,
    ensures
        last_at(s, c) == Some(i),
{
    lemma_last_at(s, c);
    match last_at(s, c) {
        None => {
            assert(false);
        },
        Some(j) => {
            if j < i {
                assert(s[i] != c);
            }
            if i < j {
                assert(s[j] != c);
            }
        },
    }
}

/// First occurrence of `c` in `s`, by a linear scan.
pub fn find_first(s: &str, c: char) -> (r: Option<usize>)
    ensures
        match r {
            Some(i) => first_at(s@, c) == Some(i as int),
            None => first_at(s@, c) is None,
        },
{
    let n = s.unicode_len();
    for i in 0..n
        invariant
            n == s@.len(),
            forall|k: int| 0 <= k < i ==> s@[k] != c,
    {
        if s.get_char(i) == c {
            proof {
                lemma_first_at_is(s@, c, i as int);
            }
            return Some(i);
        }
    }
    proof {
        lemma_first_at(s@, c);
    }
    None
}

/// Last occurrence of `c` in `s`, by a backward linear scan.
pub fn find_last(s: &str, c: char) -> (r: Option<usize>)
    ensures
        match r {
            Some(i) => last_at(s@, c) == Some(i as int),
            None => last_at(s@, c) is None,
        },
{
    let n = s.unicode_len();
    let mut i: usize = n;
    while i > 0
        invariant
            n == s@.len(),
            i <= n,
            forall|k: int| i <= k < n ==> s@[k] != c,
        decreases i,
    {
        i = i - 1;
        if s.get_char(i) == c {
            proof {
                lemma_last_at_is(s@, c, i as int);
            }
            return Some(i);
        }
    }
    proof {
        lemma_last_at(s@, c);
    }
    None
}

} // verus!

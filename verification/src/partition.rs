//! The partition key of a source file: its extension.
//!
//! Fingerprints are only compared within one partition, so a clone is never
//! reported between files of differing extensions. The extension of a path is
//! what follows the last `.` of its final component, provided that `.` is
//! neither the component's first character nor absent; otherwise it is empty.

use vstd::prelude::*;
use vstd::string::StrSliceExecFns;

verus! {

/// The largest index at which `c` occurs in `s`, or `-1` when it does not.
pub open spec fn rlast(s: Seq<char>, c: char) -> int
    decreases s.len(),
{
    if s.len() == 0 {
        -1
    } else if s.last() == c {
        s.len() - 1
    } else {
        rlast(s.drop_last(), c)
    }
}

proof fn lemma_rlast_bounds(s: Seq<char>, c: char)
    ensures
        -1 <= rlast(s, c) < s.len(),
        rlast(s, c) >= 0 ==> s[rlast(s, c)] == c,
    decreases s.len(),
{
    if s.len() > 0 && s.last() != c {
        lemma_rlast_bounds(s.drop_last(), c);
    }
}

/// When `c` occurs nowhere at or after `i`, its last occurrence is below `i`.
proof fn lemma_rlast_below(s: Seq<char>, c: char, i: int)
    requires
        0 <= i,
        forall|j: int| i <= j < s.len() ==> s[j] != c,
    ensures
        rlast(s, c) < i,
    decreases s.len(),
{
    lemma_rlast_bounds(s, c);
    if s.len() > 0 {
        if s.last() == c {
            assert(s[s.len() - 1] == c);
        } else {
            assert forall|j: int| i <= j < s.drop_last().len() implies s.drop_last()[j] != c by {
                assert(s.drop_last()[j] == s[j]);
            }
            lemma_rlast_below(s.drop_last(), c, i);
        }
    }
}

/// An occurrence of `c` at `p` with none after it is the last occurrence.
proof fn lemma_rlast_found(s: Seq<char>, c: char, p: int)
    requires
        0 <= p < s.len(),
        s[p] == c,
        forall|j: int| p < j < s.len() ==> s[j] != c,
    ensures
        rlast(s, c) == p,
    decreases s.len(),
{
    if p < s.len() - 1 {
        lemma_rlast_found(s.drop_last(), c, p);
    }
}

/// The extension of a path: what follows its last `.`, provided that `.` lies
/// after the last `/` and is not the first character of the final component.
pub open spec fn ext_of(s: Seq<char>) -> Seq<char> {
    let sl = rlast(s, '/');
    let d = rlast(s, '.');
    if d > sl + 1 {
        s.subrange(d + 1, s.len() as int)
    } else {
        Seq::<char>::empty()
    }
}

/// Compute the extension of a path, exactly as [`ext_of`] states.
pub fn extension_of(s: &str) -> (r: String)
    ensures
        r@ == ext_of(s@),
{
    let n = s.unicode_len();
    let mut i: usize = n;
    loop
        invariant
            i <= n,
            n == s@.len(),
            forall|j: int| i <= j < n ==> s@[j] != '/' && s@[j] != '.',
        ensures
            i == 0,
            forall|j: int| 0 <= j < n ==> s@[j] != '/' && s@[j] != '.',
        decreases i,
    {
        if i == 0 {
            break;
        }
        i = i - 1;
        let c = s.get_char(i);
        if c == '/' {
            proof {
                lemma_rlast_found(s@, '/', i as int);
                lemma_rlast_below(s@, '.', i as int);
            }
            return String::new();
        }
        if c == '.' {
            proof {
                lemma_rlast_found(s@, '.', i as int);
            }
            if i == 0 {
                proof {
                    lemma_rlast_below(s@, '/', 0);
                    lemma_rlast_bounds(s@, '/');
                }
                return String::new();
            }
            let prev = s.get_char(i - 1);
            if prev == '/' {
                proof {
                    lemma_rlast_found(s@, '/', i - 1);
                }
                return String::new();
            }
            proof {
                lemma_rlast_below(s@, '/', i - 1);
            }
            let ext = s.substring_char(i + 1, n);
            return ext.to_owned();
        }
    }
    proof {
        lemma_rlast_below(s@, '.', 0);
        lemma_rlast_bounds(s@, '.');
        lemma_rlast_bounds(s@, '/');
    }
    String::new()
}

} // verus!

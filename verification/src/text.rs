//! Character scanning shared by the message and key formats: finding the
//! next occurrence of a separator in a string.

use vstd::prelude::*;

verus! {

/// Index of the first occurrence of `c` at or after `from`, or the length of
/// the string if there is none.
pub open spec fn find_char_from(s: Seq<char>, from: int, c: char) -> int
    decreases s.len() - from,
{
    if from >= s.len() {
        s.len() as int
    } else if s[from] == c {
        from
    } else {
        find_char_from(s, from + 1, c)
    }
}

/// `find_char_from` lands between `from` and the end, misses `c` before its
/// answer, and hits `c` at its answer unless there is none.
pub proof fn lemma_find_char_from(s: Seq<char>, from: int, c: char)
    requires
        0 <= from <= s.len(),
    ensures
        from <= find_char_from(s, from, c) <= s.len(),
        forall|j: int| from <= j < find_char_from(s, from, c) ==> s[j] != c,
        find_char_from(s, from, c) < s.len() ==> s[find_char_from(s, from, c)] == c,
    decreases s.len() - from,
{
    if from < s.len() && s[from] != c {
        lemma_find_char_from(s, from + 1, c);
    }
}

/// Scans for the next occurrence of `c` at or after `from`.
pub fn scan_char(s: &str, from: usize, c: char) -> (r: usize)
    requires
        from <= s@.len(),
    ensures
        r == find_char_from(s@, from as int, c),
{
    let n: usize = s.unicode_len();
    let mut i: usize = from;
    while i < n && s.get_char(i) != c
        invariant
            n == s@.len(),
            from <= i <= n,
            forall|j: int| from <= j < i ==> s@[j] != c,
        decreases n - i,
    {
        i += 1;
    }
    proof {
        lemma_find_char_pin(s@, from as int, i as int, c);
    }
    i
}

/// Pinpoints `find_char_from` at `i` when everything between `from` and `i`
/// misses `c` and `i` is a hit or the end.
pub proof fn lemma_find_char_pin(s: Seq<char>, from: int, i: int, c: char)
    requires
        0 <= from <= i <= s.len(),
        forall|j: int| from <= j < i ==> s[j] != c,
        i < s.len() ==> s[i] == c,
    ensures
        find_char_from(s, from, c) == i,
    decreases i - from,
{
    if from < i {
        assert(s[from] != c);
        lemma_find_char_pin(s, from + 1, i, c);
    }
}

} // verus!

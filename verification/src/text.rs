//! Finding and splitting on separator characters.

use vstd::prelude::*;

verus! {

/// Whether `c` occurs in `s`.
pub open spec fn has_char(s: Seq<char>, c: char) -> bool {
    exists|i: int| 0 <= i < s.len() && s[i] == c
}

/// The position of the first occurrence of `c` in `s`.
pub open spec fn first_index(s: Seq<char>, c: char) -> int {
    choose|i: int|
        0 <= i < s.len() && s[i] == c && (forall|j: int| 0 <= j < i ==> s[j] != c)
}

/// A position that is an occurrence with none before it is the first one.
pub proof fn lemma_first_index(s: Seq<char>, c: char, i: int)
    requires
        0 <= i < s.len(),
        s[i] == c,
        forall|j: int| 0 <= j < i ==> s[j] != c,
    ensures
        has_char(s, c),
        first_index(s, c) == i,
{
    assert(has_char(s, c));
    let w = first_index(s, c);
    assert(0 <= w < s.len() && s[w] == c && (forall|j: int| 0 <= j < w ==> s[j] != c));
    if w < i {
        assert(s[w] != c);
    } else if i < w {
        assert(s[i] != c);
    }
}

/// What stands before the first `c`, or all of `s` when `c` is absent.
pub open spec fn up_to_char(s: Seq<char>, c: char) -> Seq<char> {
    if has_char(s, c) {
        s.subrange(0, first_index(s, c))
    } else {
        s
    }
}

/// What stands after the first `c`.
pub open spec fn after_char(s: Seq<char>, c: char) -> Seq<char> {
    s.subrange(first_index(s, c) + 1, s.len() as int)
}

/// The position of the first occurrence of `c`, if any.
pub fn find_char(s: &str, c: char) -> (r: Option<usize>)
    ensures
        match r {
            Some(i) => {
                &&& 0 <= i < s@.len()
                &&& s@[i as int] == c
                &&& has_char(s@, c)
                &&& first_index(s@, c) == i
            },
            None => !has_char(s@, c),
        },
{
    let n = s.unicode_len();
    let mut i: usize = 0;
    while i < n
        invariant
            0 <= i <= n,
            n == s@.len(),
            forall|j: int| 0 <= j < i ==> s@[j] != c,
        decreases n - i,
    {
        if s.get_char(i) == c {
            proof {
                lemma_first_index(s@, c, i as int);
            }
            return Some(i);
        }
        i = i + 1;
    }
    None
}

/// Splits `s` at the first `c`: what stands before it and what stands after
/// it, or `s` whole when `c` is absent.
pub fn split_first(s: &str, c: char) -> (r: (String, Option<String>))
    ensures
        r.0@ == up_to_char(s@, c),
        match r.1 {
            Some(rest) => has_char(s@, c) && rest@ == after_char(s@, c),
            None => !has_char(s@, c),
        },
{
    let n = s.unicode_len();
    match find_char(s, c) {
        Some(i) => {
            let head = s.substring_char(0, i);
            let tail = s.substring_char(i + 1, n);
            (head.to_owned(), Some(tail.to_owned()))
        },
        None => (s.to_owned(), None),
    }
}

} // verus!

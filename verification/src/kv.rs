//! String-keyed association lists with unique keys.
//!
//! The state store holds its collections as vectors of pairs so that their
//! order is part of the value (the persisted document keeps it) while
//! contracts speak of the induced map from key views to value views.

use vstd::prelude::*;

verus! {

/// No two entries share a key.
pub open spec fn keys_unique<V>(s: Seq<(String, V)>) -> bool {
    forall|i: int, j: int| 0 <= i < j < s.len() ==> (#[trigger] s[i]).0@ != (#[trigger] s[j]).0@
}

/// Some entry has the key `k`.
pub open spec fn has_key<V>(s: Seq<(String, V)>, k: Seq<char>) -> bool {
    exists|i: int| 0 <= i < s.len() && (#[trigger] s[i]).0@ == k
}

/// An index of an entry with key `k` (the only one, when keys are unique).
pub open spec fn key_at<V>(s: Seq<(String, V)>, k: Seq<char>) -> int {
    choose|i: int| 0 <= i < s.len() && (#[trigger] s[i]).0@ == k
}

/// The value stored under `k`.
pub open spec fn value_of<V>(s: Seq<(String, V)>, k: Seq<char>) -> V {
    s[key_at(s, k)].1
}

/// The map from key views to value views that the list represents.
pub open spec fn view_map<V: View>(s: Seq<(String, V)>) -> Map<Seq<char>, V::V> {
    Map::new(|k: Seq<char>| has_key(s, k), |k: Seq<char>| value_of(s, k)@)
}

/// With unique keys, any entry with key `k` holds the value of `k`.
pub proof fn lemma_value_at<V>(s: Seq<(String, V)>, k: Seq<char>, i: int)
    requires
        keys_unique(s),
        0 <= i < s.len(),
        s[i].0@ == k,
    ensures
        has_key(s, k),
        key_at(s, k) == i,
        value_of(s, k) == s[i].1,
{
    assert(has_key(s, k));
    let j = key_at(s, k);
    assert(0 <= j < s.len() && s[j].0@ == k);
    if i < j {
        assert(s[i].0@ != s[j].0@);
    } else if j < i {
        assert(s[j].0@ != s[i].0@);
    }
}

/// The index of the entry with key `k`, when one exists.
pub fn find_key<V>(s: &Vec<(String, V)>, k: &String) -> (r: Option<usize>)
    ensures
        match r {
            Some(i) => 0 <= i < s@.len() && (#[trigger] s@[i as int]).0@ == k@,
            None => !has_key(s@, k@),
        },
{
    let mut i: usize = 0;
    while i < s.len()
        invariant
            0 <= i <= s@.len(),
            forall|j: int| 0 <= j < i ==> (#[trigger] s@[j]).0@ != k@,
        decreases s@.len() - i,
    {
        if s[i].0 == *k {
            return Some(i);
        }
        i = i + 1;
    }
    None
}

/// A borrow of the value under `k`, when one exists.
pub fn alist_get<'a, V>(s: &'a Vec<(String, V)>, k: &String) -> (r: Option<&'a V>)
    requires
        keys_unique(s@),
    ensures
        match r {
            Some(v) => has_key(s@, k@) && *v == value_of(s@, k@),
            None => !has_key(s@, k@),
        },
{
    match find_key(s, k) {
        Some(i) => {
            proof {
                lemma_value_at(s@, k@, i as int);
            }
            Some(&s[i].1)
        },
        None => None,
    }
}

/// Insert or overwrite: afterwards `k` holds `v`, every other key is as before.
pub fn alist_upsert<V: View>(s: &mut Vec<(String, V)>, k: String, v: V)
    requires
        keys_unique(old(s)@),
    ensures
        keys_unique(final(s)@),
        view_map(final(s)@) == view_map(old(s)@).insert(k@, v@),
{
    let ghost s0 = old(s)@;
    match find_key(s, &k) {
        Some(i) => {
            proof {
                lemma_value_at(s0, k@, i as int);
            }
            s.remove(i);
            s.insert(i, (k, v));
            proof {
                let s1 = s@;
                assert(s1 =~= s0.update(i as int, (k, v)));
                assert forall|a: int, b: int| 0 <= a < b < s1.len() implies (#[trigger] s1[a]).0@
                    != (#[trigger] s1[b]).0@ by {
                    if a != i as int && b != i as int {
                        assert(s1[a] == s0[a] && s1[b] == s0[b]);
                    } else if a == i as int {
                        assert(s1[b] == s0[b]);
                        assert(s0[i as int].0@ != s0[b].0@);
                    } else {
                        assert(s1[a] == s0[a]);
                        assert(s0[a].0@ != s0[i as int].0@);
                    }
                }
                assert forall|k2: Seq<char>| true implies #[trigger] has_key(s1, k2) == view_map(
                    s0,
                ).insert(k@, v@).dom().contains(k2) by {
                    if k2 == k@ {
                        assert(s1[i as int].0@ == k2);
                        assert(has_key(s1, k2));
                    } else {
                        if has_key(s1, k2) {
                            let w = choose|w: int| 0 <= w < s1.len() && (#[trigger] s1[w]).0@ == k2;
                            assert(w != i);
                            assert(s0[w].0@ == k2);
                            assert(has_key(s0, k2));
                        }
                        if has_key(s0, k2) {
                            let w = choose|w: int| 0 <= w < s0.len() && (#[trigger] s0[w]).0@ == k2;
                            assert(w != i);
                            assert(s1[w].0@ == k2);
                            assert(has_key(s1, k2));
                        }
                    }
                }
                assert forall|k2: Seq<char>| has_key(s1, k2) implies value_of(s1, k2)@ == view_map(
                    s0,
                ).insert(k@, v@)[k2] by {
                    if k2 == k@ {
                        lemma_value_at(s1, k2, i as int);
                    } else {
                        let w = choose|w: int| 0 <= w < s1.len() && (#[trigger] s1[w]).0@ == k2;
                        assert(w != i);
                        lemma_value_at(s1, k2, w);
                        assert(s0[w].0@ == k2);
                        lemma_value_at(s0, k2, w);
                    }
                }
                assert(view_map(s1) =~= view_map(s0).insert(k@, v@));
            }
        },
        None => {
            s.push((k, v));
            proof {
                let s1 = s@;
                assert(s1 =~= s0.push((k, v)));
                let n = s0.len() as int;
                assert forall|a: int, b: int| 0 <= a < b < s1.len() implies (#[trigger] s1[a]).0@
                    != (#[trigger] s1[b]).0@ by {
                    if b == n {
                        assert(s1[a] == s0[a]);
                        assert(s1[b].0@ == k@);
                        assert(!has_key(s0, k@));
                        assert(s0[a].0@ != k@);
                    } else {
                        assert(s1[a] == s0[a] && s1[b] == s0[b]);
                    }
                }
                assert forall|k2: Seq<char>| true implies #[trigger] has_key(s1, k2) == view_map(
                    s0,
                ).insert(k@, v@).dom().contains(k2) by {
                    if k2 == k@ {
                        assert(s1[n].0@ == k2);
                        assert(has_key(s1, k2));
                    } else {
                        if has_key(s1, k2) {
                            let w = choose|w: int| 0 <= w < s1.len() && (#[trigger] s1[w]).0@ == k2;
                            assert(w != n);
                            assert(s0[w].0@ == k2);
                            assert(has_key(s0, k2));
                        }
                        if has_key(s0, k2) {
                            let w = choose|w: int| 0 <= w < s0.len() && (#[trigger] s0[w]).0@ == k2;
                            assert(s1[w].0@ == k2);
                            assert(has_key(s1, k2));
                        }
                    }
                }
                assert forall|k2: Seq<char>| has_key(s1, k2) implies value_of(s1, k2)@ == view_map(
                    s0,
                ).insert(k@, v@)[k2] by {
                    if k2 == k@ {
                        lemma_value_at(s1, k2, n);
                    } else {
                        let w = choose|w: int| 0 <= w < s1.len() && (#[trigger] s1[w]).0@ == k2;
                        assert(w != n);
                        lemma_value_at(s1, k2, w);
                        assert(s0[w].0@ == k2);
                        lemma_value_at(s0, k2, w);
                    }
                }
                assert(view_map(s1) =~= view_map(s0).insert(k@, v@));
            }
        },
    }
}

/// Remove the entry under `k`, when one exists; says whether one did.
pub fn alist_remove<V: View>(s: &mut Vec<(String, V)>, k: &String) -> (r: bool)
    requires
        keys_unique(old(s)@),
    ensures
        keys_unique(final(s)@),
        r == has_key(old(s)@, k@),
        view_map(final(s)@) == view_map(old(s)@).remove(k@),
        !r ==> *final(s) == *old(s),
{
    let ghost s0 = old(s)@;
    match find_key(s, k) {
        Some(i) => {
            proof {
                lemma_value_at(s0, k@, i as int);
            }
            s.remove(i);
            proof {
                let s1 = s@;
                let n = i as int;
                assert(s1 =~= s0.subrange(0, n) + s0.subrange(n + 1, s0.len() as int));
                assert forall|w: int| 0 <= w < s1.len() implies #[trigger] s1[w] == if w < n {
                    s0[w]
                } else {
                    s0[w + 1]
                } by {}
                assert forall|a: int, b: int| 0 <= a < b < s1.len() implies (#[trigger] s1[a]).0@
                    != (#[trigger] s1[b]).0@ by {
                    let a0 = if a < n {
                        a
                    } else {
                        a + 1
                    };
                    let b0 = if b < n {
                        b
                    } else {
                        b + 1
                    };
                    assert(s0[a0].0@ != s0[b0].0@);
                }
                assert forall|k2: Seq<char>| true implies #[trigger] has_key(s1, k2) == view_map(
                    s0,
                ).remove(k@).dom().contains(k2) by {
                    if has_key(s1, k2) {
                        let w = choose|w: int| 0 <= w < s1.len() && (#[trigger] s1[w]).0@ == k2;
                        let w0 = if w < n {
                            w
                        } else {
                            w + 1
                        };
                        assert(s0[w0].0@ == k2);
                        assert(has_key(s0, k2));
                        if k2 == k@ {
                            lemma_value_at(s0, k@, w0);
                        }
                    }
                    if has_key(s0, k2) && k2 != k@ {
                        let w = choose|w: int| 0 <= w < s0.len() && (#[trigger] s0[w]).0@ == k2;
                        assert(w != n);
                        if w < n {
                            assert(s1[w].0@ == k2);
                        } else {
                            assert(s1[w - 1].0@ == k2);
                        }
                        assert(has_key(s1, k2));
                    }
                }
                assert forall|k2: Seq<char>| has_key(s1, k2) implies value_of(s1, k2)@ == view_map(
                    s0,
                ).remove(k@)[k2] by {
                    let w = choose|w: int| 0 <= w < s1.len() && (#[trigger] s1[w]).0@ == k2;
                    lemma_value_at(s1, k2, w);
                    let w0 = if w < n {
                        w
                    } else {
                        w + 1
                    };
                    assert(s0[w0].0@ == k2);
                    lemma_value_at(s0, k2, w0);
                }
                assert(view_map(s1) =~= view_map(s0).remove(k@));
            }
            true
        },
        None => {
            proof {
                assert(view_map(s@) =~= view_map(s0).remove(k@));
            }
            false
        },
    }
}

/// The entries whose value does not read `val`.
pub open spec fn keeps_value(val: Seq<char>) -> spec_fn((String, String)) -> bool {
    |p: (String, String)| p.1@ != val
}

/// Drop every entry whose value reads `val`; every other entry stays, in
/// order.
pub fn filter_out_value(s: &mut Vec<(String, String)>, val: &String)
    requires
        keys_unique(old(s)@),
    ensures
        keys_unique(final(s)@),
        final(s)@ == old(s)@.filter(keeps_value(val@)),
        view_map(final(s)@) == Map::<Seq<char>, Seq<char>>::new(
            |k: Seq<char>| view_map(old(s)@).contains_key(k) && view_map(old(s)@)[k] != val@,
            |k: Seq<char>| view_map(old(s)@)[k],
        ),
{
    let ghost s0 = old(s)@;
    let mut out: Vec<(String, String)> = Vec::new();
    let ghost mut src: Seq<int> = Seq::empty();
    let mut i: usize = 0;
    proof {
        reveal(Seq::filter);
        assert(s0.subrange(0, 0).filter(keeps_value(val@)) =~= Seq::<(String, String)>::empty());
    }
    while i < s.len()
        invariant
            0 <= i <= s@.len(),
            s@ == s0,
            keys_unique(s0),
            out@ == s0.subrange(0, i as int).filter(keeps_value(val@)),
            src.len() == out@.len(),
            forall|m: int|
                0 <= m < out@.len() ==> 0 <= #[trigger] src[m] < i && out@[m] == s0[src[m]]
                    && s0[src[m]].1@ != val@,
            forall|a: int, b: int| 0 <= a < b < out@.len() ==> src[a] < src[b],
            forall|j: int|
                0 <= j < i && (#[trigger] s0[j]).1@ != val@ ==> exists|m: int|
                    0 <= m < out@.len() && #[trigger] src[m] == j,
        decreases s@.len() - i,
    {
        if s[i].1 == *val {
            proof {
                reveal(Seq::filter);
                let pre = s0.subrange(0, i as int);
                let cur = s0.subrange(0, i + 1);
                assert(cur.drop_last() =~= pre);
                assert(cur.last() == s0[i as int]);
                assert(!(keeps_value(val@)(s0[i as int])));
                assert(out@ == cur.filter(keeps_value(val@)));
            }
            i = i + 1;
        } else {
            let pair = (s[i].0.clone(), s[i].1.clone());
            proof {
                assert(pair == s0[i as int]);
            }
            let ghost src0 = src;
            let ghost out_b = out@;
            out.push(pair);
            proof {
                reveal(Seq::filter);
                let pre = s0.subrange(0, i as int);
                let cur = s0.subrange(0, i + 1);
                assert(cur.drop_last() =~= pre);
                assert(cur.last() == s0[i as int]);
                assert(keeps_value(val@)(s0[i as int]));
                assert(out@ =~= out_b.push(pair));
                assert(out@ == cur.filter(keeps_value(val@)));
                src = src.push(i as int);
                assert(src[out@.len() - 1] == i as int);
                assert forall|j: int| 0 <= j < i + 1 && (#[trigger] s0[j]).1@ != val@ implies exists|
                    m: int,
                |
                    0 <= m < out@.len() && #[trigger] src[m] == j by {
                    if j < i as int {
                        let m = choose|m: int| 0 <= m < src0.len() && #[trigger] src0[m] == j;
                        assert(src[m] == j);
                    } else {
                        assert(src[out@.len() - 1] == j);
                    }
                }
            }
            i = i + 1;
        }
    }
    *s = out;
    proof {
        assert(s0.subrange(0, s0.len() as int) =~= s0);
        let s1 = s@;
        assert forall|a: int, b: int| 0 <= a < b < s1.len() implies (#[trigger] s1[a]).0@ != (
        #[trigger] s1[b]).0@ by {
            assert(src[a] < src[b]);
            assert(s0[src[a]].0@ != s0[src[b]].0@);
        }
        let target = Map::<Seq<char>, Seq<char>>::new(
            |k: Seq<char>| view_map(s0).contains_key(k) && view_map(s0)[k] != val@,
            |k: Seq<char>| view_map(s0)[k],
        );
        assert forall|k: Seq<char>| true implies #[trigger] has_key(s1, k) == target.dom().contains(
            k,
        ) by {
            if has_key(s1, k) {
                let m = choose|m: int| 0 <= m < s1.len() && (#[trigger] s1[m]).0@ == k;
                let j = src[m];
                lemma_value_at(s0, k, j);
                assert(view_map(s0).contains_key(k) && view_map(s0)[k] == s0[j].1@);
            }
            if view_map(s0).contains_key(k) && view_map(s0)[k] != val@ {
                let j = key_at(s0, k);
                assert(0 <= j < s0.len() && s0[j].0@ == k);
                lemma_value_at(s0, k, j);
                assert(s0[j].1@ != val@);
                let m = choose|m: int| 0 <= m < s1.len() && #[trigger] src[m] == j;
                assert(s1[m].0@ == k);
                assert(has_key(s1, k));
            }
        }
        assert forall|k: Seq<char>| has_key(s1, k) implies value_of(s1, k)@ == view_map(s0)[k] by {
            let m = choose|m: int| 0 <= m < s1.len() && (#[trigger] s1[m]).0@ == k;
            lemma_value_at(s1, k, m);
            let j = src[m];
            lemma_value_at(s0, k, j);
        }
        assert(view_map(s1) =~= target);
    }
}

/// No two strings of the sequence read the same.
pub open spec fn strs_unique(s: Seq<String>) -> bool {
    forall|i: int, j: int| 0 <= i < j < s.len() ==> (#[trigger] s[i])@ != (#[trigger] s[j])@
}

/// Some string of the sequence reads `d`.
pub open spec fn seq_has_str(s: Seq<String>, d: Seq<char>) -> bool {
    exists|i: int| 0 <= i < s.len() && (#[trigger] s[i])@ == d
}

/// The set of string views the sequence holds.
pub open spec fn str_set(s: Seq<String>) -> Set<Seq<char>> {
    Set::new(|d: Seq<char>| seq_has_str(s, d))
}

/// Membership in the sequence and in its set agree.
pub broadcast proof fn lemma_str_set_contains(s: Seq<String>, d: Seq<char>)
    ensures
        #![trigger seq_has_str(s, d)]
        #![trigger str_set(s).contains(d)]
        seq_has_str(s, d) == str_set(s).contains(d),
{
}

/// The position of the first string reading `d`.
pub open spec fn first_occ(s: Seq<String>, d: Seq<char>) -> int {
    choose|i: int|
        0 <= i < s.len() && (#[trigger] s[i])@ == d && (forall|j: int| 0 <= j < i ==> s[j]@ != d)
}

/// A position that reads `d` with none before it is the first one.
pub proof fn lemma_first_occ_at(s: Seq<String>, d: Seq<char>, i: int)
    requires
        0 <= i < s.len(),
        s[i]@ == d,
        forall|j: int| 0 <= j < i ==> s[j]@ != d,
    ensures
        first_occ(s, d) == i,
{
    let w = first_occ(s, d);
    assert(0 <= w < s.len() && s[w]@ == d && (forall|j: int| 0 <= j < w ==> s[j]@ != d));
    if w < i {
        assert(s[w]@ != d);
    } else if i < w {
        assert(s[i]@ != d);
    }
}

/// Whether some element of `v` reads `d`.
pub fn contains_str(v: &Vec<String>, d: &String) -> (r: bool)
    ensures
        r == seq_has_str(v@, d@),
{
    let mut i: usize = 0;
    while i < v.len()
        invariant
            0 <= i <= v@.len(),
            forall|j: int| 0 <= j < i ==> (#[trigger] v@[j])@ != d@,
        decreases v@.len() - i,
    {
        if v[i] == *d {
            return true;
        }
        i = i + 1;
    }
    false
}

/// Add `d` unless an equal string is already there.
pub fn push_unique(v: &mut Vec<String>, d: String)
    requires
        strs_unique(old(v)@),
    ensures
        strs_unique(final(v)@),
        str_set(final(v)@) == str_set(old(v)@).insert(d@),
        seq_has_str(old(v)@, d@) ==> *final(v) == *old(v),
        !seq_has_str(old(v)@, d@) ==> final(v)@ == old(v)@.push(d),
{
    let ghost s0 = old(v)@;
    if contains_str(v, &d) {
        proof {
            assert(str_set(s0) =~= str_set(s0).insert(d@));
        }
    } else {
        v.push(d);
        proof {
            let s1 = v@;
            let n = s0.len() as int;
            assert(s1 =~= s0.push(d));
            assert forall|a: int, b: int| 0 <= a < b < s1.len() implies (#[trigger] s1[a])@
                != (#[trigger] s1[b])@ by {
                if b == n {
                    assert(s1[a] == s0[a]);
                    assert(s0[a]@ != d@);
                } else {
                    assert(s1[a] == s0[a] && s1[b] == s0[b]);
                }
            }
            assert forall|k: Seq<char>| true implies #[trigger] seq_has_str(s1, k) == str_set(
                s0,
            ).insert(d@).contains(k) by {
                if k == d@ {
                    assert(s1[n]@ == k);
                } else {
                    if seq_has_str(s1, k) {
                        let w = choose|w: int| 0 <= w < s1.len() && (#[trigger] s1[w])@ == k;
                        assert(w != n);
                        assert(s0[w]@ == k);
                    }
                    if seq_has_str(s0, k) {
                        let w = choose|w: int| 0 <= w < s0.len() && (#[trigger] s0[w])@ == k;
                        assert(s1[w]@ == k);
                    }
                }
            }
            assert(str_set(s1) =~= str_set(s0).insert(d@));
        }
    }
}

/// Whether no two entries share a key.
pub fn check_keys_unique<V>(v: &Vec<(String, V)>) -> (r: bool)
    ensures
        r == keys_unique(v@),
{
    let mut i: usize = 0;
    while i < v.len()
        invariant
            0 <= i <= v@.len(),
            forall|a: int, b: int| 0 <= a < b < i ==> (#[trigger] v@[a]).0@ != (#[trigger] v@[b]).0@,
        decreases v@.len() - i,
    {
        let mut j: usize = 0;
        while j < i
            invariant
                0 <= j <= i < v@.len(),
                forall|b: int| 0 <= b < j ==> (#[trigger] v@[b]).0@ != v@[i as int].0@,
            decreases i - j,
        {
            if v[j].0 == v[i].0 {
                return false;
            }
            j = j + 1;
        }
        i = i + 1;
    }
    true
}

/// Whether no two strings of the vector read the same.
pub fn check_strs_unique(v: &Vec<String>) -> (r: bool)
    ensures
        r == strs_unique(v@),
{
    let mut i: usize = 0;
    while i < v.len()
        invariant
            0 <= i <= v@.len(),
            forall|a: int, b: int| 0 <= a < b < i ==> (#[trigger] v@[a])@ != (#[trigger] v@[b])@,
        decreases v@.len() - i,
    {
        let mut j: usize = 0;
        while j < i
            invariant
                0 <= j <= i < v@.len(),
                forall|b: int| 0 <= b < j ==> (#[trigger] v@[b])@ != v@[i as int]@,
            decreases i - j,
        {
            if v[j] == v[i] {
                return false;
            }
            j = j + 1;
        }
        i = i + 1;
    }
    true
}

/// A copy of a vector of strings, reading the same, element for element.
pub fn clone_string_vec(v: &Vec<String>) -> (r: Vec<String>)
    ensures
        r@ == v@,
{
    let mut r: Vec<String> = Vec::new();
    let mut i: usize = 0;
    while i < v.len()
        invariant
            0 <= i <= v@.len(),
            r@.len() == i,
            forall|j: int| 0 <= j < i ==> #[trigger] r@[j] == v@[j],
        decreases v@.len() - i,
    {
        r.push(v[i].clone());
        i = i + 1;
    }
    proof {
        assert(r@ =~= v@);
    }
    r
}

} // verus!

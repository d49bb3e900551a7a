//! Name-keyed association vectors.  The registry and the function metadata
//! keep their maps as vectors of pairs; lookup is by first matching key.
//! The spec functions here give such a vector its meaning, and the lemmas
//! relate lookup to push, update and removal.

use vstd::prelude::*;

verus! {

/// The spec-level shape of an association vector of `String` keys.
pub open spec fn akey_view<V>(s: Seq<(String, V)>) -> Seq<(Seq<char>, V)> {
    s.map_values(|p: (String, V)| (p.0@, p.1))
}

/// The first index holding key `k`, or the length when the key is absent.
pub open spec fn afind<V>(s: Seq<(Seq<char>, V)>, k: Seq<char>) -> int
    decreases s.len(),
{
    if s.len() == 0 {
        0
    } else if s[0].0 == k {
        0
    } else {
        1 + afind(s.subrange(1, s.len() as int), k)
    }
}

/// Whether the vector holds key `k` at all.
pub open spec fn ahas<V>(s: Seq<(Seq<char>, V)>, k: Seq<char>) -> bool {
    afind(s, k) < s.len()
}

/// The value stored under key `k`, by first match.
pub open spec fn aget<V>(s: Seq<(Seq<char>, V)>, k: Seq<char>) -> Option<V> {
    if ahas(s, k) {
        Some(s[afind(s, k)].1)
    } else {
        None
    }
}

/// What `afind` points at: a position in range, holding the key when in
/// range, with no earlier position holding it.
pub proof fn lemma_afind<V>(s: Seq<(Seq<char>, V)>, k: Seq<char>)
    ensures
        0 <= afind(s, k) <= s.len(),
        afind(s, k) < s.len() ==> s[afind(s, k)].0 == k,
        forall|j: int| 0 <= j < afind(s, k) ==> s[j].0 != k,
    decreases s.len(),
{
    if s.len() > 0 && s[0].0 != k {
        let t = s.subrange(1, s.len() as int);
        lemma_afind(t, k);
        assert(forall|j: int| 0 <= j < t.len() ==> t[j] == s[j + 1]);
        assert forall|j: int| 0 <= j < afind(s, k) implies s[j].0 != k by {
            if j > 0 {
                assert(t[j - 1].0 != k);
            }
        }
    }
}

/// `afind` points at the first position holding the key.
pub proof fn lemma_afind_at<V>(s: Seq<(Seq<char>, V)>, k: Seq<char>, i: int)
    requires
        0 <= i <= s.len(),
        forall|j: int| 0 <= j < i ==> s[j].0 != k,
        i < s.len() ==> s[i].0 == k,
    ensures
        afind(s, k) == i,
    decreases s.len(),
{
    if s.len() > 0 && s[0].0 != k {
        let t = s.subrange(1, s.len() as int);
        assert(forall|j: int| 0 <= j < t.len() ==> t[j] == s[j + 1]);
        lemma_afind_at(t, k, i - 1);
    }
}

/// A key is held iff some position holds it.
pub proof fn lemma_ahas_exists<V>(s: Seq<(Seq<char>, V)>, k: Seq<char>)
    ensures
        ahas(s, k) <==> exists|j: int| 0 <= j < s.len() && (#[trigger] s[j].0) == k,
{
    lemma_afind(s, k);
    if ahas(s, k) {
        assert(s[afind(s, k)].0 == k);
    }
    if exists|j: int| 0 <= j < s.len() && (#[trigger] s[j].0) == k {
        let j = choose|j: int| 0 <= j < s.len() && (#[trigger] s[j].0) == k;
        if !ahas(s, k) {
            assert(s[j].0 != k);
        }
    }
}

/// Pushing a pair with a fresh key leaves every other key's lookup alone
/// and makes the new key's lookup hit the pushed value.
pub proof fn lemma_aget_push<V>(s: Seq<(Seq<char>, V)>, k: Seq<char>, v: V, k2: Seq<char>)
    requires
        !ahas(s, k),
    ensures
        aget(s.push((k, v)), k2) == if k2 == k {
            Some(v)
        } else {
            aget(s, k2)
        },
{
    let s2 = s.push((k, v));
    lemma_afind(s, k);
    lemma_afind(s, k2);
    if k2 == k {
        assert(forall|j: int| 0 <= j < s.len() ==> s2[j].0 != k);
        lemma_afind_at(s2, k, s.len() as int);
    } else {
        if ahas(s, k2) {
            let i = afind(s, k2);
            assert(forall|j: int| 0 <= j < i ==> s2[j].0 != k2);
            lemma_afind_at(s2, k2, i);
        } else {
            assert(forall|j: int| 0 <= j < s.len() ==> s2[j].0 != k2);
            assert(s2[s.len() as int].0 != k2);
            lemma_afind_at(s2, k2, s2.len() as int);
        }
    }
}

/// Removing the position that holds a key (keys unique) removes exactly
/// that key's entry from every lookup.
pub proof fn lemma_aget_remove<V>(s: Seq<(Seq<char>, V)>, i: int, k2: Seq<char>)
    requires
        0 <= i < s.len(),
        forall|a: int, b: int| 0 <= a < b < s.len() ==> (#[trigger] s[a].0) != (#[trigger] s[b].0),
    ensures
        aget(s.remove(i), k2) == if k2 == s[i].0 {
            None::<V>
        } else {
            aget(s, k2)
        },
{
    let k = s[i].0;
    let s2 = s.remove(i);
    assert(forall|j: int| 0 <= j < i ==> s2[j] == s[j]);
    assert(forall|j: int| i <= j < s2.len() ==> s2[j] == s[j + 1]);
    lemma_afind(s, k2);
    lemma_afind(s2, k2);
    if k2 == k {
        if ahas(s2, k) {
            let j = afind(s2, k);
            assert(s2[j].0 == k);
            if j < i {
                assert(s[j].0 == k && s[i].0 == k);
            } else {
                assert(s[j + 1].0 == k && s[i].0 == k);
            }
        }
    } else {
        if ahas(s, k2) {
            let j = afind(s, k2);
            if j < i {
                assert(forall|a: int| 0 <= a < j ==> s2[a].0 != k2);
                lemma_afind_at(s2, k2, j);
            } else {
                assert(j > i);
                assert(s2[j - 1].0 == k2);
                assert forall|a: int| 0 <= a < j - 1 implies s2[a].0 != k2 by {
                    if a < i {
                        assert(s[a].0 != k2);
                    } else {
                        assert(s[a + 1].0 != k2);
                    }
                }
                lemma_afind_at(s2, k2, j - 1);
            }
        } else {
            assert forall|a: int| 0 <= a < s2.len() implies s2[a].0 != k2 by {
                if a < i {
                    assert(s[a].0 != k2);
                } else {
                    assert(s[a + 1].0 != k2);
                }
            }
            lemma_afind_at(s2, k2, s2.len() as int);
        }
    }
}

/// Find the first position of a key in an association vector, or its
/// length when the key is absent.
pub fn assoc_find<V>(v: &Vec<(String, V)>, k: &String) -> (i: usize)
    ensures
        i == afind(akey_view(v@), k@),
        i <= v@.len(),
{
    let ghost s = akey_view(v@);
    proof {
        assert(s.len() == v@.len());
    }
    let n: usize = v.len();
    let mut i: usize = 0;
    while i < n
        invariant
            0 <= i <= n,
            n == v@.len(),
            s == akey_view(v@),
            s.len() == n,
            forall|j: int| 0 <= j < i ==> (#[trigger] s[j].0) != k@,
        decreases n - i,
    {
        if v[i].0.eq(k) {
            proof {
                assert(s[i as int].0 == v@[i as int].0@);
                lemma_afind_at(s, k@, i as int);
            }
            return i;
        }
        proof {
            assert(s[i as int].0 == v@[i as int].0@);
        }
        i = i + 1;
    }
    proof {
        lemma_afind_at(s, k@, n as int);
    }
    n
}

} // verus!

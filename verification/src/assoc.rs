//! Small maps keyed by path, held as lists of entries: a key's value is that of its first
//! entry.

use crate::path_ops::same_path;
use vstd::prelude::*;

verus! {

/// The entries of a list, with their keys as characters.
pub open spec fn assoc_view<V>(s: Seq<(String, V)>) -> Seq<(Seq<char>, V)> {
    s.map_values(|e: (String, V)| (e.0@, e.1))
}

/// The value of the first entry of `t` for `p`, if any.
pub open spec fn assoc_get<V>(t: Seq<(Seq<char>, V)>, p: Seq<char>) -> Option<V>
    decreases t.len(),
{
    if t.len() == 0 {
        None
    } else if t[0].0 == p {
        Some(t[0].1)
    } else {
        assoc_get(t.drop_first(), p)
    }
}

/// The map that the entries of `t` stand for: each key to the value of its first entry.
pub open spec fn assoc_map<V>(t: Seq<(Seq<char>, V)>) -> Map<Seq<char>, V> {
    Map::new(|q: Seq<char>| assoc_get(t, q) is Some, |q: Seq<char>| assoc_get(t, q)->0)
}

/// The value of the first entry for `p` is found at the first index that holds `p`.
pub proof fn lemma_assoc_get_at<V>(t: Seq<(Seq<char>, V)>, p: Seq<char>, i: int)
    requires
        0 <= i < t.len(),
        t[i].0 == p,
        forall|j: int| 0 <= j < i ==> (#[trigger] t[j]).0 != p,
    ensures
        assoc_get(t, p) == Some(t[i].1),
    decreases t.len(),
{
    if i > 0 {
        assert forall|j: int| 0 <= j < i - 1 implies (#[trigger] t.drop_first()[j]).0 != p by {
            assert(t.drop_first()[j] == t[j + 1]);
        }
        lemma_assoc_get_at(t.drop_first(), p, i - 1);
    }
}

/// A key that no entry holds has no value.
pub proof fn lemma_assoc_get_absent<V>(t: Seq<(Seq<char>, V)>, p: Seq<char>)
    requires
        forall|j: int| 0 <= j < t.len() ==> (#[trigger] t[j]).0 != p,
    ensures
        assoc_get(t, p) is None,
    decreases t.len(),
{
    if t.len() > 0 {
        assert forall|j: int| 0 <= j < t.len() - 1 implies (#[trigger] t.drop_first()[j]).0 != p by {
            assert(t.drop_first()[j] == t[j + 1]);
        }
        lemma_assoc_get_absent(t.drop_first(), p);
    }
}

/// Appending an entry changes the value of its key only, and only when the key had none.
pub proof fn lemma_assoc_get_push<V>(t: Seq<(Seq<char>, V)>, p: Seq<char>, v: V, q: Seq<char>)
    ensures
        assoc_get(t.push((p, v)), q) == if q == p && assoc_get(t, q) is None { Some(v) } else { assoc_get(t, q) },
    decreases t.len(),
{
    if t.len() > 0 {
        assert(t.push((p, v)).drop_first() =~= t.drop_first().push((p, v)));
        lemma_assoc_get_push(t.drop_first(), p, v, q);
    } else {
        assert(t.push((p, v)).drop_first() =~= t);
    }
}

/// Replacing the value of the entry at `i`, the first for its key, changes that key's value only.
proof fn lemma_assoc_get_update<V>(t: Seq<(Seq<char>, V)>, i: int, v: V, q: Seq<char>)
    requires
        0 <= i < t.len(),
        forall|j: int| 0 <= j < i ==> (#[trigger] t[j]).0 != t[i].0,
    ensures
        assoc_get(t.update(i, (t[i].0, v)), q) == if q == t[i].0 { Some(v) } else { assoc_get(t, q) },
    decreases t.len(),
{
    if i == 0 {
        assert(t.update(i, (t[i].0, v)).drop_first() =~= t.drop_first());
    } else {
        assert(t.update(i, (t[i].0, v)).drop_first() =~= t.drop_first().update(i - 1, (t[i].0, v)));
        assert forall|j: int| 0 <= j < i - 1 implies (#[trigger] t.drop_first()[j]).0 != t.drop_first()[i - 1].0 by {
            assert(t.drop_first()[j] == t[j + 1]);
        }
        lemma_assoc_get_update(t.drop_first(), i - 1, v, q);
    }
}

/// Removing an entry whose key is `p` changes the value of no other key.
proof fn lemma_assoc_get_remove<V>(t: Seq<(Seq<char>, V)>, i: int, q: Seq<char>)
    requires
        0 <= i < t.len(),
        t[i].0 != q,
    ensures
        assoc_get(t.remove(i), q) == assoc_get(t, q),
    decreases t.len(),
{
    if i > 0 {
        assert(t.remove(i).drop_first() =~= t.drop_first().remove(i - 1));
        lemma_assoc_get_remove(t.drop_first(), i - 1, q);
    } else {
        assert(t.remove(i) =~= t.drop_first());
    }
}

/// The index of the first entry of `s` for `p`, if any.
pub fn assoc_index<V>(s: &Vec<(String, V)>, p: &String) -> (r: Option<usize>)
    ensures
        match r {
            Some(i) => i < s@.len() && s@[i as int].0@ == p@
                && assoc_get(assoc_view(s@), p@) == Some(s@[i as int].1)
                && forall|j: int| 0 <= j < i ==> (#[trigger] s@[j]).0@ != p@,
            None => assoc_get(assoc_view(s@), p@) is None
                && forall|j: int| 0 <= j < s@.len() ==> (#[trigger] s@[j]).0@ != p@,
        },
{
    let ghost t = assoc_view(s@);
    let mut i: usize = 0;
    while i < s.len()
        invariant
            i <= s@.len(),
            t == assoc_view(s@),
            forall|j: int| 0 <= j < i ==> (#[trigger] s@[j]).0@ != p@,
        decreases s@.len() - i,
    {
        if same_path(&s[i].0, p) {
            proof {
                assert forall|j: int| 0 <= j < i implies (#[trigger] t[j]).0 != p@ by {
                    assert(t[j].0 == s@[j].0@);
                }
                lemma_assoc_get_at(t, p@, i as int);
            }
            return Some(i);
        }
        i = i + 1;
    }
    proof {
        assert forall|j: int| 0 <= j < t.len() implies (#[trigger] t[j]).0 != p@ by {
            assert(t[j].0 == s@[j].0@);
        }
        lemma_assoc_get_absent(t, p@);
    }
    None
}

/// Sets the value of `p` to `v`: its first entry is updated, or one is appended.
pub fn assoc_insert<V>(s: &mut Vec<(String, V)>, p: String, v: V)
    ensures
        forall|q: Seq<char>| #[trigger] assoc_get(assoc_view(final(s)@), q)
            == if q == p@ { Some(v) } else { assoc_get(assoc_view(old(s)@), q) },
        assoc_map(assoc_view(final(s)@)) == assoc_map(assoc_view(old(s)@)).insert(p@, v),
{
    let ghost t0 = assoc_view(s@);
    let ghost pv = p@;
    match assoc_index(s, &p) {
        Some(i) => {
            s.set(i, (p, v));
            proof {
                assert(assoc_view(s@) =~= t0.update(i as int, (t0[i as int].0, v)));
                assert forall|j: int| 0 <= j < i implies (#[trigger] t0[j]).0 != t0[i as int].0 by {
                    assert(t0[j].0 == old(s)@[j].0@);
                }
                assert forall|q: Seq<char>| #[trigger] assoc_get(assoc_view(s@), q)
                    == if q == pv { Some(v) } else { assoc_get(t0, q) } by {
                    lemma_assoc_get_update(t0, i as int, v, q);
                }
            }
        },
        None => {
            s.push((p, v));
            proof {
                assert(assoc_view(s@) =~= t0.push((pv, v)));
                assert forall|q: Seq<char>| #[trigger] assoc_get(assoc_view(s@), q)
                    == if q == pv { Some(v) } else { assoc_get(t0, q) } by {
                    lemma_assoc_get_push(t0, pv, v, q);
                }
            }
        },
    }
    assert(assoc_map(assoc_view(s@)) =~= assoc_map(t0).insert(pv, v));
}

/// Removes every entry for `p`; returns whether `p` had a value.
pub fn assoc_remove<V>(s: &mut Vec<(String, V)>, p: &String) -> (r: bool)
    ensures
        r == (assoc_get(assoc_view(old(s)@), p@) is Some),
        forall|q: Seq<char>| #[trigger] assoc_get(assoc_view(final(s)@), q)
            == if q == p@ { None } else { assoc_get(assoc_view(old(s)@), q) },
        assoc_map(assoc_view(final(s)@)) == assoc_map(assoc_view(old(s)@)).remove(p@),
{
    let mut found = false;
    loop
        invariant
            !found ==> s@ == old(s)@,
            found ==> assoc_get(assoc_view(old(s)@), p@) is Some,
            forall|q: Seq<char>| q != p@ ==> #[trigger] assoc_get(assoc_view(s@), q) == assoc_get(assoc_view(old(s)@), q),
        decreases s@.len(),
    {
        match assoc_index(s, p) {
            Some(i) => {
                let ghost t = assoc_view(s@);
                s.remove(i);
                proof {
                    assert(assoc_view(s@) =~= t.remove(i as int));
                    assert forall|q: Seq<char>| q != p@ implies #[trigger] assoc_get(assoc_view(s@), q)
                        == assoc_get(assoc_view(old(s)@), q) by {
                        lemma_assoc_get_remove(t, i as int, q);
                    }
                }
                found = true;
            },
            None => {
                assert(assoc_map(assoc_view(s@)) =~= assoc_map(assoc_view(old(s)@)).remove(p@));
                return found;
            },
        }
    }
}


/// Whether no two entries of `t` share a key.
pub open spec fn keys_distinct<V>(t: Seq<(Seq<char>, V)>) -> bool {
    forall|i: int, j: int| 0 <= i < t.len() && 0 <= j < t.len() && i != j ==> (#[trigger] t[i]).0 != (#[trigger] t[j]).0
}

} // verus!

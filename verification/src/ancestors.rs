//! How many tracked roots lie strictly below each ancestor directory: an ancestor is watched
//! for as long as one tracked root below it is.

use crate::path_ops::{parent, path_parent, same_path};
use vstd::prelude::*;

verus! {

/// The strict ancestors of `p`, nearest first.
pub open spec fn ancestors_of(p: Seq<char>) -> Seq<Seq<char>>
    decreases p.len(),
{
    match path_parent(p) {
        Some(q) => if q.len() < p.len() {
            seq![q] + ancestors_of(q)
        } else {
            seq![]
        },
        None => seq![],
    }
}

/// The count of `k` in `m`, zero when absent.
pub open spec fn count_in(m: Map<Seq<char>, nat>, k: Seq<char>) -> nat {
    if m.contains_key(k) { m[k] } else { 0 }
}

/// The counts after a root with the ancestors `anc` is tracked: each of them counts one more.
pub open spec fn counts_after_track(m: Map<Seq<char>, nat>, anc: Seq<Seq<char>>) -> Map<Seq<char>, nat> {
    Map::new(
        |k: Seq<char>| m.contains_key(k) || anc.contains(k),
        |k: Seq<char>| count_in(m, k) + if anc.contains(k) { 1nat } else { 0nat },
    )
}

/// The counts after a root with the ancestors `anc` is untracked: each of them counts one
/// less, and is forgotten when no tracked root is left below it.
pub open spec fn counts_after_untrack(m: Map<Seq<char>, nat>, anc: Seq<Seq<char>>) -> Map<Seq<char>, nat> {
    Map::new(
        |k: Seq<char>| m.contains_key(k) && !(anc.contains(k) && m[k] <= 1),
        |k: Seq<char>| if anc.contains(k) { (m[k] - 1) as nat } else { m[k] },
    )
}

/// The ancestors in `anc` that untracking forgets, in order.
pub open spec fn forgotten(m: Map<Seq<char>, nat>, anc: Seq<Seq<char>>) -> Seq<Seq<char>> {
    anc.filter(|k: Seq<char>| m.contains_key(k) && m[k] <= 1)
}

/// The map that a list of distinct keys with counts holds.
pub open spec fn to_map(s: Seq<(Seq<char>, usize)>) -> Map<Seq<char>, nat>
    decreases s.len(),
{
    if s.len() == 0 {
        Map::empty()
    } else {
        to_map(s.drop_last()).insert(s.last().0, s.last().1 as nat)
    }
}

/// The keys of a list of counts.
pub open spec fn keys_of(s: Seq<(Seq<char>, usize)>) -> Seq<Seq<char>> {
    s.map_values(|e: (Seq<char>, usize)| e.0)
}

proof fn lemma_to_map_contains(s: Seq<(Seq<char>, usize)>, k: Seq<char>)
    requires
        keys_of(s).no_duplicates(),
    ensures
        to_map(s).contains_key(k) <==> keys_of(s).contains(k),
        forall|i: int| 0 <= i < s.len() && (#[trigger] s[i]).0 == k ==> to_map(s)[k] == s[i].1 as nat,
    decreases s.len(),
{
    if s.len() == 0 {
        assert(keys_of(s) =~= Seq::<Seq<char>>::empty());
    } else {
        let t = s.drop_last();
        let last = s.last();
        assert(keys_of(s) =~= keys_of(t).push(last.0));
        assert(keys_of(t).no_duplicates()) by {
            assert forall|a: int, b: int| 0 <= a < keys_of(t).len() && 0 <= b < keys_of(t).len() && a != b
                implies keys_of(t)[a] != keys_of(t)[b] by {
                assert(keys_of(t)[a] == keys_of(s)[a]);
                assert(keys_of(t)[b] == keys_of(s)[b]);
            }
        }
        lemma_to_map_contains(t, k);
        assert(to_map(s) == to_map(t).insert(last.0, last.1 as nat));
        assert(keys_of(s)[s.len() - 1] == last.0);
        if keys_of(s).contains(k) {
            let j = choose|j: int| 0 <= j < keys_of(s).len() && keys_of(s)[j] == k;
            if j < s.len() - 1 {
                assert(keys_of(t)[j] == k);
                assert(keys_of(t).contains(k));
            }
        }
        if keys_of(t).contains(k) {
            let j = choose|j: int| 0 <= j < keys_of(t).len() && keys_of(t)[j] == k;
            assert(keys_of(s)[j] == k);
        }
        assert forall|i: int| 0 <= i < s.len() && s[i].0 == k implies to_map(s)[k] == s[i].1 as nat by {
            if i < s.len() - 1 {
                assert(keys_of(s)[i] == k);
                assert(keys_of(s)[s.len() - 1] == last.0);
                assert(last.0 != k);
                assert(t[i] == s[i]);
            }
        }
    }
}

proof fn lemma_to_map_update(s: Seq<(Seq<char>, usize)>, i: int, c: usize)
    requires
        keys_of(s).no_duplicates(),
        0 <= i < s.len(),
    ensures
        to_map(s.update(i, (s[i].0, c))) == to_map(s).insert(s[i].0, c as nat),
        keys_of(s.update(i, (s[i].0, c))) == keys_of(s),
    decreases s.len(),
{
    let u = s.update(i, (s[i].0, c));
    assert(keys_of(u) =~= keys_of(s));
    if i == s.len() - 1 {
        assert(u.drop_last() =~= s.drop_last());
        assert(to_map(u) =~= to_map(s).insert(s[i].0, c as nat));
    } else {
        let t = s.drop_last();
        assert(keys_of(t) =~= keys_of(s).drop_last());
        lemma_to_map_update(t, i, c);
        assert(u.drop_last() =~= t.update(i, (t[i].0, c)));
        assert(s.last().0 != s[i].0) by {
            assert(keys_of(s)[i] == s[i].0);
            assert(keys_of(s)[s.len() - 1] == s.last().0);
        }
        assert(to_map(u) =~= to_map(s).insert(s[i].0, c as nat));
    }
}

proof fn lemma_to_map_remove(s: Seq<(Seq<char>, usize)>, i: int)
    requires
        keys_of(s).no_duplicates(),
        0 <= i < s.len(),
    ensures
        to_map(s.remove(i)) == to_map(s).remove(s[i].0),
        keys_of(s.remove(i)).no_duplicates(),
    decreases s.len(),
{
    let r = s.remove(i);
    assert(keys_of(r) =~= keys_of(s).remove(i));
    assert(keys_of(r).no_duplicates()) by {
        assert forall|a: int, b: int| 0 <= a < keys_of(r).len() && 0 <= b < keys_of(r).len() && a != b
            implies keys_of(r)[a] != keys_of(r)[b] by {
            let a2 = if a < i { a } else { a + 1 };
            let b2 = if b < i { b } else { b + 1 };
            assert(keys_of(r)[a] == keys_of(s)[a2]);
            assert(keys_of(r)[b] == keys_of(s)[b2]);
        }
    }
    if i == s.len() - 1 {
        assert(r =~= s.drop_last());
        lemma_to_map_contains(r, s[i].0);
        assert(!keys_of(r).contains(s[i].0)) by {
            if keys_of(r).contains(s[i].0) {
                let j = choose|j: int| 0 <= j < keys_of(r).len() && keys_of(r)[j] == s[i].0;
                assert(keys_of(s)[j] == keys_of(s)[i]);
            }
        }
        assert(to_map(r) =~= to_map(s).remove(s[i].0));
    } else {
        let t = s.drop_last();
        assert(keys_of(t) =~= keys_of(s).drop_last());
        lemma_to_map_remove(t, i);
        assert(r.drop_last() =~= t.remove(i));
        assert(r.last() == s.last());
        assert(s.last().0 != s[i].0) by {
            assert(keys_of(s)[i] == s[i].0);
            assert(keys_of(s)[s.len() - 1] == s.last().0);
        }
        assert(to_map(r) =~= to_map(s).remove(s[i].0));
    }
}

/// For each ancestor directory of tracked roots, how many tracked roots lie strictly below it.
#[derive(Clone, Debug)]
pub struct AncestorCounts {
    entries: Vec<(String, usize)>,
}

impl AncestorCounts {
    /// The entries, as characters.
    pub closed spec fn entries_view(&self) -> Seq<(Seq<char>, usize)> {
        self.entries@.map_values(|e: (String, usize)| (e.0@, e.1))
    }

    /// Each ancestor appears once and counts at least one root.
    pub closed spec fn wf(&self) -> bool {
        &&& keys_of(self.entries_view()).no_duplicates()
        &&& forall|i: int| 0 <= i < self.entries@.len() ==> #[trigger] self.entries@[i].1 >= 1
    }

    /// The counts.
    pub closed spec fn counts(&self) -> Map<Seq<char>, nat> {
        to_map(self.entries_view())
    }

    /// No ancestor.
    pub fn new() -> (r: AncestorCounts)
        ensures
            r.wf(),
            r.counts() == Map::<Seq<char>, nat>::empty(),
    {
        let r = AncestorCounts { entries: Vec::new() };
        assert(keys_of(r.entries_view()) =~= Seq::<Seq<char>>::empty());
        r
    }

    /// Every count is at least one: an ancestor is forgotten once no tracked root is below it.
    pub proof fn lemma_counts_positive(&self)
        requires
            self.wf(),
        ensures
            forall|k: Seq<char>| #[trigger] self.counts().contains_key(k) ==> self.counts()[k] >= 1,
    {
        assert forall|k: Seq<char>| #[trigger] self.counts().contains_key(k) implies self.counts()[k] >= 1 by {
            lemma_to_map_contains(self.entries_view(), k);
            let j = choose|j: int| 0 <= j < keys_of(self.entries_view()).len() && keys_of(self.entries_view())[j] == k;
            assert(self.entries_view()[j].0 == k);
        }
    }

    /// The index of the entry for `path`.
    fn index_of(&self, path: &String) -> (r: Option<usize>)
        requires
            self.wf(),
        ensures
            r matches Some(i) ==> i < self.entries@.len() && self.entries_view()[i as int].0 == path@,
            r is None ==> !keys_of(self.entries_view()).contains(path@),
    {
        let ghost ev = self.entries_view();
        let mut i: usize = 0;
        while i < self.entries.len()
            invariant
                i <= self.entries@.len(),
                ev == self.entries_view(),
                forall|j: int| 0 <= j < i ==> keys_of(ev)[j] != path@,
            decreases self.entries@.len() - i,
        {
            assert(keys_of(ev)[i as int] == self.entries@[i as int].0@);
            if same_path(&self.entries[i].0, path) {
                return Some(i);
            }
            i = i + 1;
        }
        None
    }

    /// Whether tracked roots lie below `path`.
    pub fn contains(&self, path: &String) -> (r: bool)
        requires
            self.wf(),
        ensures
            r == self.counts().contains_key(path@),
    {
        proof {
            lemma_to_map_contains(self.entries_view(), path@);
        }
        match self.index_of(path) {
            Some(i) => {
                assert(keys_of(self.entries_view())[i as int] == path@);
                true
            },
            None => false,
        }
    }

    /// Whether every count can grow by one.
    pub fn can_track(&self) -> (r: bool)
        requires
            self.wf(),
        ensures
            r == forall|k: Seq<char>| #[trigger] self.counts().contains_key(k) ==> self.counts()[k] < usize::MAX,
    {
        let ghost ev = self.entries_view();
        let mut i: usize = 0;
        while i < self.entries.len()
            invariant
                i <= self.entries@.len(),
                self.wf(),
                ev == self.entries_view(),
                forall|j: int| 0 <= j < i ==> #[trigger] ev[j].1 < usize::MAX,
            decreases self.entries@.len() - i,
        {
            if self.entries[i].1 == usize::MAX {
                proof {
                    lemma_to_map_contains(ev, ev[i as int].0);
                    assert(keys_of(ev)[i as int] == ev[i as int].0);
                    assert(self.counts().contains_key(ev[i as int].0));
                    assert(self.counts()[ev[i as int].0] == usize::MAX);
                }
                return false;
            }
            i = i + 1;
        }
        proof {
            assert forall|k: Seq<char>| #[trigger] self.counts().contains_key(k) implies self.counts()[k] < usize::MAX by {
                lemma_to_map_contains(ev, k);
                let j = choose|j: int| 0 <= j < keys_of(ev).len() && keys_of(ev)[j] == k;
                assert(ev[j].0 == k);
            }
        }
        true
    }

    /// Counts one more root below `path`.
    fn bump(&mut self, path: String)
        requires
            old(self).wf(),
            old(self).counts().contains_key(path@) ==> old(self).counts()[path@] < usize::MAX,
        ensures
            final(self).wf(),
            final(self).counts() == old(self).counts().insert(path@, count_in(old(self).counts(), path@) + 1),
    {
        let ghost ev = self.entries_view();
        proof {
            lemma_to_map_contains(ev, path@);
        }
        match self.index_of(&path) {
            Some(i) => {
                let c = self.entries[i].1;
                assert(ev[i as int].1 == c);
                assert(keys_of(ev)[i as int] == path@);
                assert(old(self).counts().contains_key(path@));
                assert(old(self).counts()[path@] == c);
                let key = self.entries[i].0.clone();
                self.entries.set(i, (key, c + 1));
                assert(self.entries_view() =~= ev.update(i as int, (ev[i as int].0, (c + 1) as usize)));
                proof {
                    lemma_to_map_update(ev, i as int, (c + 1) as usize);
                }
            },
            None => {
                self.entries.push((path, 1));
                assert(self.entries_view() =~= ev.push((path@, 1usize)));
                assert(keys_of(self.entries_view()) =~= keys_of(ev).push(path@));
                assert(self.entries_view().drop_last() =~= ev);
            },
        }
    }

    /// Counts one root less below `path`; forgets it, returning true, when none is left.
    fn drop_one(&mut self, path: &String) -> (r: bool)
        requires
            old(self).wf(),
        ensures
            final(self).wf(),
            r == (old(self).counts().contains_key(path@) && old(self).counts()[path@] <= 1),
            final(self).counts() == (if !old(self).counts().contains_key(path@) {
                old(self).counts()
            } else if old(self).counts()[path@] <= 1 {
                old(self).counts().remove(path@)
            } else {
                old(self).counts().insert(path@, (old(self).counts()[path@] - 1) as nat)
            }),
    {
        let ghost ev = self.entries_view();
        proof {
            lemma_to_map_contains(ev, path@);
        }
        match self.index_of(path) {
            Some(i) => {
                let c = self.entries[i].1;
                assert(ev[i as int].1 == c);
                assert(keys_of(ev)[i as int] == path@);
                assert(old(self).counts().contains_key(path@));
                assert(old(self).counts()[path@] == c);
                if c <= 1 {
                    self.entries.remove(i);
                    assert(self.entries_view() =~= ev.remove(i as int));
                    proof {
                        lemma_to_map_remove(ev, i as int);
                    }
                    true
                } else {
                    let key = self.entries[i].0.clone();
                    self.entries.set(i, (key, c - 1));
                    assert(self.entries_view() =~= ev.update(i as int, (ev[i as int].0, (c - 1) as usize)));
                    proof {
                        lemma_to_map_update(ev, i as int, (c - 1) as usize);
                    }
                    false
                }
            },
            None => false,
        }
    }

    /// Counts one more root below each strict ancestor of `root`, which is now tracked.
    pub fn track(&mut self, root: &String)
        requires
            old(self).wf(),
            forall|k: Seq<char>| #[trigger] old(self).counts().contains_key(k) ==> old(self).counts()[k] < usize::MAX,
        ensures
            final(self).wf(),
            final(self).counts() == counts_after_track(old(self).counts(), ancestors_of(root@)),
    {
        let ghost m0 = self.counts();
        let ghost mut done: Seq<Seq<char>> = seq![];
        let mut cur = root.clone();
        assert(counts_after_track(m0, done) =~= m0);
        loop
            invariant
                self.wf(),
                self.counts() == counts_after_track(m0, done),
                done + ancestors_of(cur@) == ancestors_of(root@),
                cur@.len() <= root@.len(),
                forall|i: int| 0 <= i < done.len() ==> (#[trigger] done[i]).len() >= cur@.len(),
                forall|k: Seq<char>| #[trigger] m0.contains_key(k) ==> m0[k] < usize::MAX,
            ensures
                done == ancestors_of(root@),
            decreases cur@.len(),
        {
            match parent(cur.as_str()) {
                None => {
                    assert(ancestors_of(cur@) =~= Seq::<Seq<char>>::empty());
                    assert(done =~= ancestors_of(root@));
                    break;
                },
                Some(q) => {
                    assert(ancestors_of(cur@) == seq![q@] + ancestors_of(q@));
                    assert(!done.contains(q@)) by {
                        if done.contains(q@) {
                            let j = choose|j: int| 0 <= j < done.len() && done[j] == q@;
                            assert(done[j].len() >= cur@.len());
                        }
                    }
                    let ghost before = self.counts();
                    assert(before.contains_key(q@) ==> before[q@] == m0[q@]);
                    self.bump(q.clone());
                    proof {
                        let nd = done.push(q@);
                        assert forall|k: Seq<char>| #![auto] nd.contains(k) <==> done.contains(k) || k == q@ by {
                            if nd.contains(k) {
                                let j = choose|j: int| 0 <= j < nd.len() && nd[j] == k;
                                if j < done.len() {
                                    assert(done[j] == k);
                                }
                            }
                            if done.contains(k) {
                                let j = choose|j: int| 0 <= j < done.len() && done[j] == k;
                                assert(nd[j] == k);
                            }
                            if k == q@ {
                                assert(nd[done.len() as int] == k);
                            }
                        }
                        assert(self.counts() =~= counts_after_track(m0, nd));
                        assert(nd + ancestors_of(q@) =~= done + (seq![q@] + ancestors_of(q@)));
                        done = nd;
                    }
                    cur = q;
                },
            }
        }
    }

    /// The ancestors whose parent is `dir`: the directories below `dir` on the way to tracked
    /// roots, whose coming and going a change of `dir` may reveal.
    pub fn children_of(&self, dir: &String) -> (r: Vec<String>)
        requires
            self.wf(),
        ensures
            forall|k: Seq<char>| r@.map_values(|p: String| p@).contains(k)
                <==> (self.counts().contains_key(k) && path_parent(k) == Some(dir@)),
    {
        let ghost ev = self.entries_view();
        let mut out: Vec<String> = Vec::new();
        let mut i: usize = 0;
        while i < self.entries.len()
            invariant
                i <= self.entries@.len(),
                self.wf(),
                ev == self.entries_view(),
                forall|k: Seq<char>| out@.map_values(|p: String| p@).contains(k)
                    <==> (keys_of(ev).take(i as int).contains(k) && path_parent(k) == Some(dir@)),
            decreases self.entries@.len() - i,
        {
            let ghost before = out@.map_values(|p: String| p@);
            let key = &self.entries[i].0;
            let ghost kv = key@;
            assert(keys_of(ev)[i as int] == kv);
            assert(keys_of(ev).take(i + 1) =~= keys_of(ev).take(i as int).push(kv));
            let is_child = match parent(key.as_str()) {
                Some(q) => same_path(&q, dir),
                None => false,
            };
            assert(is_child == (path_parent(kv) == Some(dir@)));
            if is_child {
                out.push(key.clone());
                assert(out@.map_values(|p: String| p@) =~= before.push(kv));
            }
            proof {
                let now = out@.map_values(|p: String| p@);
                let t0 = keys_of(ev).take(i as int);
                let t1 = keys_of(ev).take(i + 1);
                assert forall|k: Seq<char>| now.contains(k)
                    <==> (t1.contains(k) && path_parent(k) == Some(dir@)) by {
                    if t1.contains(k) {
                        let j = choose|j: int| 0 <= j < t1.len() && t1[j] == k;
                        if j < i {
                            assert(t0[j] == k);
                        }
                    }
                    if t0.contains(k) {
                        let j = choose|j: int| 0 <= j < t0.len() && t0[j] == k;
                        assert(t1[j] == k);
                    }
                    if now.contains(k) {
                        let j = choose|j: int| 0 <= j < now.len() && now[j] == k;
                        if j < before.len() {
                            assert(before[j] == k);
                        }
                    }
                    if before.contains(k) {
                        let j = choose|j: int| 0 <= j < before.len() && before[j] == k;
                        assert(now[j] == k);
                    }
                    if is_child {
                        assert(now[now.len() - 1] == kv);
                    }
                    assert(t1[i as int] == kv);
                }
            }
            i = i + 1;
        }
        assert(keys_of(ev).take(i as int) =~= keys_of(ev));
        proof {
            assert forall|k: Seq<char>| out@.map_values(|p: String| p@).contains(k)
                <==> (self.counts().contains_key(k) && path_parent(k) == Some(dir@)) by {
                lemma_to_map_contains(ev, k);
            }
        }
        out
    }

    /// Counts one root less below each strict ancestor of `root`, which is no longer tracked,
    /// and returns, nearest first, the ancestors that no tracked root is below any more.
    pub fn untrack(&mut self, root: &String) -> (r: Vec<String>)
        requires
            old(self).wf(),
        ensures
            final(self).wf(),
            final(self).counts() == counts_after_untrack(old(self).counts(), ancestors_of(root@)),
            r@.map_values(|p: String| p@) == forgotten(old(self).counts(), ancestors_of(root@)),
    {
        let ghost m0 = self.counts();
        let ghost mut done: Seq<Seq<char>> = seq![];
        let ghost pred = |k: Seq<char>| m0.contains_key(k) && m0[k] <= 1;
        let mut out: Vec<String> = Vec::new();
        let mut cur = root.clone();
        assert(counts_after_untrack(m0, done) =~= m0);
        assert(out@.map_values(|p: String| p@) =~= done.filter(pred));
        loop
            invariant
                self.wf(),
                self.counts() == counts_after_untrack(m0, done),
                pred == (|k: Seq<char>| m0.contains_key(k) && m0[k] <= 1),
                out@.map_values(|p: String| p@) == done.filter(pred),
                done + ancestors_of(cur@) == ancestors_of(root@),
                forall|i: int| 0 <= i < done.len() ==> (#[trigger] done[i]).len() >= cur@.len(),
            ensures
                done == ancestors_of(root@),
            decreases cur@.len(),
        {
            match parent(cur.as_str()) {
                None => {
                    assert(ancestors_of(cur@) =~= Seq::<Seq<char>>::empty());
                    assert(done =~= ancestors_of(root@));
                    break;
                },
                Some(q) => {
                    assert(ancestors_of(cur@) == seq![q@] + ancestors_of(q@));
                    assert(!done.contains(q@)) by {
                        if done.contains(q@) {
                            let j = choose|j: int| 0 <= j < done.len() && done[j] == q@;
                            assert(done[j].len() >= cur@.len());
                        }
                    }
                    let ghost before = self.counts();
                    assert(before.contains_key(q@) <==> m0.contains_key(q@));
                    assert(before.contains_key(q@) ==> before[q@] == m0[q@]);
                    let gone = self.drop_one(&q);
                    if gone {
                        out.push(q.clone());
                    }
                    proof {
                        let nd = done.push(q@);
                        done.lemma_filter_push(q@, pred);
                        assert(out@.map_values(|p: String| p@) =~= nd.filter(pred));
                        assert forall|k: Seq<char>| #![auto] nd.contains(k) <==> done.contains(k) || k == q@ by {
                            if nd.contains(k) {
                                let j = choose|j: int| 0 <= j < nd.len() && nd[j] == k;
                                if j < done.len() {
                                    assert(done[j] == k);
                                }
                            }
                            if done.contains(k) {
                                let j = choose|j: int| 0 <= j < done.len() && done[j] == k;
                                assert(nd[j] == k);
                            }
                            if k == q@ {
                                assert(nd[done.len() as int] == k);
                            }
                        }
                        assert(self.counts() =~= counts_after_untrack(m0, nd));
                        assert(nd + ancestors_of(q@) =~= done + (seq![q@] + ancestors_of(q@)));
                        done = nd;
                    }
                    cur = q;
                },
            }
        }
        out
    }
}

/// Untracking a root undoes tracking it: whatever the counts were, counting the root below
/// each of its ancestors and then counting it out again gives the counts back.
pub proof fn lemma_untrack_undoes_track(m: Map<Seq<char>, nat>, root: Seq<char>)
    requires
        forall|k: Seq<char>| #[trigger] m.contains_key(k) ==> m[k] >= 1,
    ensures
        counts_after_untrack(counts_after_track(m, ancestors_of(root)), ancestors_of(root)) == m,
{
    let anc = ancestors_of(root);
    assert(counts_after_untrack(counts_after_track(m, anc), anc) =~= m);
}

/// Tracking a root counts it below every one of its ancestors, each of which is then known.
pub proof fn lemma_track_covers_ancestors(m: Map<Seq<char>, nat>, root: Seq<char>, k: Seq<char>)
    requires
        ancestors_of(root).contains(k),
    ensures
        counts_after_track(m, ancestors_of(root)).contains_key(k),
        counts_after_track(m, ancestors_of(root))[k] == count_in(m, k) + 1,
{
}

} // verus!

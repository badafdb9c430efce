use vstd::prelude::*;

use crate::text::same_text;

verus! {

/// The map that the first `n` of some entries make up.
pub open spec fn entries_map<V: View>(entries: Seq<(String, V)>, n: nat) -> Map<Seq<char>, V::V>
    decreases n,
{
    if n == 0 {
        Map::empty()
    } else {
        entries_map(entries, (n - 1) as nat).insert(entries[n - 1].0@, entries[n - 1].1@)
    }
}

/// No path occurs twice.
pub open spec fn distinct_keys<V: View>(entries: Seq<(String, V)>) -> bool {
    forall|i: int, j: int| 0 <= i < j < entries.len() ==> (#[trigger] entries[i]).0@ != (#[trigger] entries[j]).0@
}

/// Values by path.
pub struct PathMap<V> {
    entries: Vec<(String, V)>,
}

proof fn lemma_entries_map<V: View>(entries: Seq<(String, V)>, n: nat, k: Seq<char>)
    requires
        distinct_keys(entries),
        n <= entries.len(),
    ensures
        entries_map(entries, n).dom().contains(k) <==> exists|i: int| 0 <= i < n && (#[trigger] entries[i]).0@ == k,
        forall|i: int|
            0 <= i < n && (#[trigger] entries[i]).0@ == k ==> entries_map(entries, n).dom().contains(k) && entries_map(
                entries,
                n,
            )[k] == entries[i].1@,
    decreases n,
{
    if n > 0 {
        lemma_entries_map(entries, (n - 1) as nat, k);
        if entries[n - 1].0@ == k {
            assert forall|i: int| 0 <= i < n && (#[trigger] entries[i]).0@ == k implies i == n - 1 by {}
        }
    }
}

impl<V: View> PathMap<V> {
    pub closed spec fn view(&self) -> Map<Seq<char>, V::V> {
        entries_map(self.entries@, self.entries@.len())
    }

    /// No path occurs twice.
    pub closed spec fn wf(&self) -> bool {
        distinct_keys(self.entries@)
    }

    /// An empty map.
    pub fn new() -> (r: Self)
        ensures
            r.wf(),
            r@ == Map::<Seq<char>, V::V>::empty(),
    {
        PathMap { entries: Vec::new() }
    }

    /// How many paths there are.
    pub closed spec fn size(&self) -> nat {
        self.entries@.len()
    }

    /// The path of entry `i`.
    pub closed spec fn key(&self, i: int) -> Seq<char> {
        self.entries@[i].0@
    }

    fn find(&self, path: &str) -> (r: Option<usize>)
        requires
            self.wf(),
        ensures
            r is None <==> !self@.dom().contains(path@),
            r matches Some(i) ==> i < self.entries@.len() && self.entries@[i as int].0@ == path@ && self@[path@]
                == self.entries@[i as int].1@,
    {
        proof {
            lemma_entries_map(self.entries@, self.entries@.len(), path@);
        }
        let mut i: usize = 0;
        while i < self.entries.len()
            invariant
                i <= self.entries.len(),
                self.wf(),
                forall|k: int| 0 <= k < i ==> (#[trigger] self.entries@[k]).0@ != path@,
            decreases self.entries.len() - i,
        {
            if same_text(self.entries[i].0.as_str(), path) {
                proof {
                    lemma_entries_map(self.entries@, self.entries@.len(), path@);
                }
                return Some(i);
            }
            i += 1;
        }
        None
    }

    /// Whether there is a value for `path`.
    pub fn contains_key(&self, path: &str) -> (r: bool)
        requires
            self.wf(),
        ensures
            r == self@.dom().contains(path@),
    {
        self.find(path).is_some()
    }

    /// The value for `path`.
    pub fn get(&self, path: &str) -> (r: Option<&V>)
        requires
            self.wf(),
        ensures
            r is Some <==> self@.dom().contains(path@),
            r matches Some(v) ==> v@ == self@[path@],
    {
        match self.find(path) {
            Some(i) => Some(&self.entries[i].1),
            None => None,
        }
    }

    /// Sets the value for `path`.
    pub fn insert(&mut self, path: &str, value: V)
        requires
            old(self).wf(),
        ensures
            final(self).wf(),
            final(self)@ == old(self)@.insert(path@, value@),
    {
        let ghost before = self.entries@;
        match self.find(path) {
            Some(i) => {
                self.entries.set(i, (path.to_owned(), value));
            },
            None => {
                proof {
                    lemma_entries_map(before, before.len(), path@);
                }
                self.entries.push((path.to_owned(), value));
            },
        }
        proof {
            assert(distinct_keys(self.entries@));
            assert forall|k: Seq<char>| true implies (#[trigger] self@.dom().contains(k) <==> old(self)@.insert(
                path@,
                value@,
            ).dom().contains(k)) && (self@.dom().contains(k) ==> self@[k] == old(self)@.insert(path@, value@)[k]) by {
                lemma_entries_map(before, before.len(), k);
                lemma_entries_map(self.entries@, self.entries@.len(), k);
                if exists|i: int| 0 <= i < before.len() && (#[trigger] before[i]).0@ == k {
                    let i = choose|i: int| 0 <= i < before.len() && (#[trigger] before[i]).0@ == k;
                    assert(self.entries@[i].0@ == k);
                }
                if exists|i: int| 0 <= i < self.entries@.len() && (#[trigger] self.entries@[i]).0@ == k {
                    let i = choose|i: int| 0 <= i < self.entries@.len() && (#[trigger] self.entries@[i]).0@ == k;
                    if k != path@ {
                        assert(i < before.len());
                        assert(before[i].0@ == k);
                    }
                }
                if k == path@ {
                    let j = if self.entries@.len() > before.len() {
                        before.len() as int
                    } else {
                        choose|i: int| 0 <= i < before.len() && (#[trigger] before[i]).0@ == k
                    };
                    assert(self.entries@[j].0@ == path@);
                }
            }
            assert(self@ =~= old(self)@.insert(path@, value@));
        }
    }

    /// Removes the value for `path`, and says whether there was one.
    pub fn remove(&mut self, path: &str) -> (r: bool)
        requires
            old(self).wf(),
        ensures
            final(self).wf(),
            final(self)@ == old(self)@.remove(path@),
            r == old(self)@.dom().contains(path@),
    {
        let ghost before = self.entries@;
        match self.find(path) {
            Some(i) => {
                self.entries.remove(i);
                proof {
                    assert forall|k: Seq<char>| true implies (#[trigger] self@.dom().contains(k) <==> old(self)@.remove(
                        path@,
                    ).dom().contains(k)) && (self@.dom().contains(k) ==> self@[k] == old(self)@.remove(path@)[k]) by {
                        lemma_entries_map(before, before.len(), k);
                        lemma_entries_map(self.entries@, self.entries@.len(), k);
                        if exists|j: int| 0 <= j < self.entries@.len() && (#[trigger] self.entries@[j]).0@ == k {
                            let j = choose|j: int| 0 <= j < self.entries@.len() && (#[trigger] self.entries@[j]).0@ == k;
                            let at = if j < i {
                                j
                            } else {
                                j + 1
                            };
                            assert(before[at] == self.entries@[j]);
                            assert(before[i as int].0@ == path@);
                        }
                        if k != path@ && exists|j: int| 0 <= j < before.len() && (#[trigger] before[j]).0@ == k {
                            let j = choose|j: int| 0 <= j < before.len() && (#[trigger] before[j]).0@ == k;
                            let at = if j < i {
                                j
                            } else {
                                j - 1
                            };
                            assert(self.entries@[at] == before[j]);
                        }
                    }
                    assert(self@ =~= old(self)@.remove(path@));
                }
                true
            },
            None => {
                assert(self@ =~= old(self)@.remove(path@));
                false
            },
        }
    }

    /// How many paths there are.
    pub fn len(&self) -> (r: usize)
        ensures
            r == self.size(),
    {
        self.entries.len()
    }

    /// The path of entry `i`.
    pub fn key_at(&self, i: usize) -> (r: &String)
        requires
            self.wf(),
            i < self.size(),
        ensures
            r@ == self.key(i as int),
            self@.dom().contains(r@),
    {
        proof {
            lemma_entries_map(self.entries@, self.entries@.len(), self.entries@[i as int].0@);
        }
        &self.entries[i].0
    }

    /// Every path is the path of some entry.
    pub proof fn lemma_keys(&self, path: Seq<char>)
        requires
            self.wf(),
            self@.dom().contains(path),
        ensures
            exists|i: int| 0 <= i < self.size() && #[trigger] self.key(i) == path,
    {
        lemma_entries_map(self.entries@, self.entries@.len(), path);
        let i = choose|i: int| 0 <= i < self.entries@.len() && (#[trigger] self.entries@[i]).0@ == path;
        assert(self.key(i) == path);
    }
}

} // verus!

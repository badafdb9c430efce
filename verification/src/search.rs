use vstd::prelude::*;
use vstd::string::*;

use crate::listing::{
    lemma_precedes_strict, lemma_precedes_total, lemma_precedes_transitive, precedes, text_precedes,
};
use crate::path_map::PathMap;
use crate::vfs::{Vfs, VfsView};

verus! {

/// A character as file names compare it: capital letters count as small ones.
pub open spec fn folded(c: char) -> char {
    if 'A' <= c <= 'Z' {
        ((c as u32) + 32) as char
    } else {
        c
    }
}

/// The two paths name the same file: only the case of letters differs.
pub open spec fn same_name(a: Seq<char>, b: Seq<char>) -> bool {
    a.len() == b.len() && forall|i: int| 0 <= i < a.len() ==> folded(#[trigger] a[i]) == folded(b[i])
}

fn fold(c: char) -> (r: char)
    ensures
        r == folded(c),
{
    if 'A' <= c && c <= 'Z' {
        (c as u8 + 32) as char
    } else {
        c
    }
}

/// Whether the two paths name the same file.
pub fn is_same_name(a: &str, b: &str) -> (r: bool)
    ensures
        r == same_name(a@, b@),
{
    let n: usize = a.unicode_len();
    if n != b.unicode_len() {
        return false;
    }
    let mut i: usize = 0;
    while i < n
        invariant
            i <= n,
            n == a@.len(),
            n == b@.len(),
            forall|k: int| 0 <= k < i ==> folded(#[trigger] a@[k]) == folded(b@[k]),
        decreases n - i,
    {
        if fold(a.get_char(i)) != fold(b.get_char(i)) {
            assert(folded(a@[i as int]) != folded(b@[i as int]));
            return false;
        }
        i += 1;
    }
    true
}

impl VfsView {
    /// The resource fork under `key` is one that `path` can mean.
    pub open spec fn means(self, path: Seq<char>, key: Seq<char>) -> bool {
        self.resources.dom().contains(key) && same_name(key, path)
    }

    /// It is the first of them.
    pub open spec fn means_first(self, path: Seq<char>, key: Seq<char>) -> bool {
        &&& self.means(path, key)
        &&& forall|other: Seq<char>| #[trigger] self.means(path, other) ==> other == key || precedes(key, other)
    }

    /// The resource fork that `path` means: the one of just that path, or else the first
    /// whose path differs from it in the case of letters alone.
    pub open spec fn resource_key(self, path: Seq<char>) -> Option<Seq<char>> {
        if self.resources.dom().contains(path) {
            Some(path)
        } else if exists|key: Seq<char>| self.means_first(path, key) {
            Some(choose|key: Seq<char>| self.means_first(path, key))
        } else {
            None
        }
    }
}

proof fn lemma_one_first(v: VfsView, path: Seq<char>, a: Seq<char>, b: Seq<char>)
    requires
        v.means_first(path, a),
        v.means_first(path, b),
    ensures
        a == b,
{
    if a != b {
        assert(v.means(path, a) && v.means(path, b));
        lemma_precedes_transitive(a, b, a);
        lemma_precedes_strict(a);
    }
}

impl Vfs {
    /// Finds the resource fork that `path` means.
    pub fn find_vfs_rsrc_file(&self, path: &str) -> (r: Option<String>)
        requires
            self.wf(),
        ensures
            r is Some <==> self@.resource_key(path@) is Some,
            r matches Some(k) ==> Some(k@) == self@.resource_key(path@) && self@.resources.dom().contains(k@),
    {
        if self.resource(path).is_some() {
            return Some(path.to_owned());
        }
        let keys: &PathMap<Vec<u8>> = self.resource_map();
        let mut best: Option<usize> = None;
        let mut i: usize = 0;
        while i < keys.len()
            invariant
                i <= keys.size(),
                keys.wf(),
                keys@ == self@.resources,
                best is None ==> forall|k: int| 0 <= k < i ==> !same_name(#[trigger] keys.key(k), path@),
                best matches Some(b) ==> b < i && self@.means(path@, keys.key(b as int)) && forall|k: int|
                    0 <= k < i && same_name(#[trigger] keys.key(k), path@) ==> keys.key(k) == keys.key(b as int)
                        || precedes(keys.key(b as int), keys.key(k)),
            decreases keys.size() - i,
        {
            let key: &String = keys.key_at(i);
            if is_same_name(key.as_str(), path) {
                match best {
                    None => {
                        best = Some(i);
                    },
                    Some(b) => {
                        let first: &String = keys.key_at(b);
                        if text_precedes(key.as_str(), first.as_str()) {
                            proof {
                                assert forall|k: int|
                                    0 <= k < i + 1 && same_name(#[trigger] keys.key(k), path@) implies keys.key(k)
                                    == key@ || precedes(key@, keys.key(k)) by {
                                    if k < i && keys.key(k) != first@ {
                                        lemma_precedes_transitive(key@, first@, keys.key(k));
                                    }
                                }
                            }
                            best = Some(i);
                        } else {
                            proof {
                                lemma_precedes_total(key@, first@);
                            }
                        }
                    },
                }
            }
            i += 1;
        }
        proof {
            assert forall|other: Seq<char>| #[trigger] self@.means(path@, other) implies exists|k: int|
                0 <= k < keys.size() && #[trigger] keys.key(k) == other by {
                keys.lemma_keys(other);
            }
        }
        match best {
            Some(b) => {
                let first: &String = keys.key_at(b);
                proof {
                    assert(self@.means_first(path@, first@));
                    let chosen = choose|key: Seq<char>| self@.means_first(path@, key);
                    lemma_one_first(self@, path@, first@, chosen);
                }
                Some(first.clone())
            },
            None => {
                proof {
                    assert forall|key: Seq<char>| !self@.means_first(path@, key) by {
                        if self@.means(path@, key) {
                            let k = choose|k: int| 0 <= k < keys.size() && #[trigger] keys.key(k) == key;
                            assert(!same_name(keys.key(k), path@));
                        }
                    }
                }
                None
            },
        }
    }
}

/// A fork of just the path asked for is the one that is found.
pub proof fn lemma_exact_path_first(v: VfsView, path: Seq<char>)
    requires
        v.resources.dom().contains(path),
    ensures
        v.resource_key(path) == Some(path),
{
}

} // verus!

use vstd::prelude::*;
use vstd::string::*;

use crate::path_map::PathMap;
use crate::text::{
    base_name, begins_with, chars_of, lemma_normal_path_is_normal, lemma_normal_path_is_stable, normal_path,
    normalize_path, path_base_name, same_text, text_begins_with,
};
use crate::vfs::{can_name_file, names_file, resource_mark, Vfs, VfsMetadata, VfsView};

verus! {

/// Where the hash of a fork begins.
pub const FORK_HASH_START: u64 = 0xcbf2_9ce4_8422_2325;
/// What every byte of a fork multiplies its hash by.
pub const FORK_HASH_FACTOR: u64 = 0x0000_0100_0000_01b3;

/// A file without its content.
#[derive(Clone, Debug, PartialEq, Eq)]
pub struct VfsFileStat {
    pub path: String,
    pub data_len: usize,
    pub resource_len: usize,
    pub file_type: u32,
    pub creator: u32,
    pub finder_flags: u16,
    pub created_date: u32,
    pub modified_date: u32,
}

/// A file with hashes in place of its content.
#[derive(Clone, Debug, PartialEq, Eq)]
pub struct VfsFileSummary {
    pub path: String,
    pub data_len: usize,
    pub resource_len: usize,
    pub data_hash: u64,
    pub resource_hash: u64,
    pub file_type: u32,
    pub creator: u32,
    pub finder_flags: u16,
    pub created_date: u32,
    pub modified_date: u32,
}

/// A file without its content as a mathematical value.
pub struct StatView {
    pub path: Seq<char>,
    pub data_len: nat,
    pub resource_len: nat,
    pub m: (u32, u32, u16, u32, u32),
}

/// A file with hashes in place of its content as a mathematical value.
pub struct SummaryView {
    pub stat: StatView,
    pub data_hash: u64,
    pub resource_hash: u64,
}

impl View for VfsFileStat {
    type V = StatView;

    open spec fn view(&self) -> StatView {
        StatView {
            path: self.path@,
            data_len: self.data_len as nat,
            resource_len: self.resource_len as nat,
            m: (self.file_type, self.creator, self.finder_flags, self.created_date, self.modified_date),
        }
    }
}

impl View for VfsFileSummary {
    type V = SummaryView;

    open spec fn view(&self) -> SummaryView {
        SummaryView {
            stat: StatView {
                path: self.path@,
                data_len: self.data_len as nat,
                resource_len: self.resource_len as nat,
                m: (self.file_type, self.creator, self.finder_flags, self.created_date, self.modified_date),
            },
            data_hash: self.data_hash,
            resource_hash: self.resource_hash,
        }
    }
}

/// The hash of the first `n` bytes of a fork.
pub open spec fn fork_hash(bytes: Seq<u8>, n: nat) -> u64
    decreases n,
{
    if n == 0 {
        FORK_HASH_START
    } else {
        (fork_hash(bytes, (n - 1) as nat) ^ (bytes[n - 1] as u64)).wrapping_mul(FORK_HASH_FACTOR)
    }
}

/// The hash of a fork.
pub fn vfs_fork_hash(bytes: &Vec<u8>) -> (r: u64)
    ensures
        r == fork_hash(bytes@, bytes@.len()),
{
    let mut hash: u64 = FORK_HASH_START;
    let mut i: usize = 0;
    while i < bytes.len()
        invariant
            i <= bytes.len(),
            hash == fork_hash(bytes@, i as nat),
        decreases bytes.len() - i,
    {
        hash = (hash ^ bytes[i] as u64).wrapping_mul(FORK_HASH_FACTOR);
        i += 1;
    }
    hash
}

/// Text `a` comes before text `b`, character by character.
pub open spec fn precedes(a: Seq<char>, b: Seq<char>) -> bool
    decreases a.len(),
{
    if b.len() == 0 {
        false
    } else if a.len() == 0 {
        true
    } else if a[0] != b[0] {
        (a[0] as int) < (b[0] as int)
    } else {
        precedes(a.skip(1), b.skip(1))
    }
}

/// Of two different texts one comes before the other.
pub proof fn lemma_precedes_total(a: Seq<char>, b: Seq<char>)
    ensures
        a == b || precedes(a, b) || precedes(b, a),
    decreases a.len(),
{
    if a.len() == 0 || b.len() == 0 {
        if a.len() == b.len() {
            assert(a =~= b);
        }
    } else if a[0] == b[0] {
        lemma_precedes_total(a.skip(1), b.skip(1));
        if a.skip(1) == b.skip(1) {
            assert(a =~= seq![a[0]] + a.skip(1));
            assert(b =~= seq![b[0]] + b.skip(1));
        }
    }
}

/// What comes before a text comes before what comes behind it.
pub proof fn lemma_precedes_transitive(a: Seq<char>, b: Seq<char>, c: Seq<char>)
    requires
        precedes(a, b),
        precedes(b, c),
    ensures
        precedes(a, c),
    decreases a.len(),
{
    if a.len() > 0 && b.len() > 0 && c.len() > 0 && a[0] == b[0] && b[0] == c[0] {
        lemma_precedes_transitive(a.skip(1), b.skip(1), c.skip(1));
    }
}

/// No text comes before itself.
pub proof fn lemma_precedes_strict(a: Seq<char>)
    ensures
        !precedes(a, a),
    decreases a.len(),
{
    if a.len() > 0 {
        lemma_precedes_strict(a.skip(1));
    }
}

/// Whether text `a` comes before text `b`.
pub fn text_precedes(a: &str, b: &str) -> (r: bool)
    ensures
        r == precedes(a@, b@),
{
    let x: Vec<char> = chars_of(a);
    let y: Vec<char> = chars_of(b);
    let mut i: usize = 0;
    assert(x@.skip(0) =~= x@ && y@.skip(0) =~= y@);
    while i < x.len() && i < y.len()
        invariant
            i <= x@.len(),
            i <= y@.len(),
            x@ == a@,
            y@ == b@,
            precedes(a@, b@) == precedes(x@.skip(i as int), y@.skip(i as int)),
        decreases x.len() - i,
    {
        assert(x@.skip(i as int)[0] == x@[i as int]);
        assert(y@.skip(i as int)[0] == y@[i as int]);
        let c: char = x[i];
        let d: char = y[i];
        if c != d {
            return c < d;
        }
        assert(x@.skip(i as int).skip(1) =~= x@.skip(i as int + 1));
        assert(y@.skip(i as int).skip(1) =~= y@.skip(i as int + 1));
        i += 1;
    }
    i < y.len()
}

/// The texts of a list.
pub open spec fn texts(list: Seq<String>) -> Seq<Seq<char>> {
    list.map_values(|s: String| s@)
}

/// Every text comes before those behind it.
pub open spec fn ascending(list: Seq<Seq<char>>) -> bool {
    forall|i: int, j: int| 0 <= i < j < list.len() ==> precedes(#[trigger] list[i], #[trigger] list[j])
}

impl VfsView {
    /// Path `p` is listed: it is the normal form of a file's path, which is not
    /// that of a resource fork.
    pub open spec fn listed(self, p: Seq<char>) -> bool {
        p.len() > 0 && exists|k: Seq<char>|
            #[trigger] self.is_file(k) && !begins_with(k, resource_mark()) && p == normal_path(k)
    }

    /// `list` lists the files: each path once, in order.
    pub open spec fn lists(self, list: Seq<Seq<char>>) -> bool {
        &&& ascending(list)
        &&& forall|p: Seq<char>| #[trigger] list.contains(p) <==> self.listed(p)
    }

    /// The files after the catalog was asked about the first `n` paths of a list.
    pub open spec fn catalogued(self, list: Seq<Seq<char>>, n: nat) -> VfsView
        decreases n,
    {
        if n == 0 {
            self
        } else {
            self.catalogued(list, (n - 1) as nat).asked(list[n - 1]).0
        }
    }

    /// The file at `path` without its content.
    pub open spec fn stat(self, path: Seq<char>, m: VfsMetadata) -> StatView {
        StatView {
            path,
            data_len: self.data_of(path).len(),
            resource_len: self.resource_of(path).len(),
            m: (m.file_type, m.creator, m.finder_flags, m.created_date, m.modified_date),
        }
    }

    /// The files after the catalog was asked about `path`, and the file without
    /// its content.
    pub open spec fn stat_of(self, path: Seq<char>) -> (VfsView, Option<StatView>) {
        let (s, m) = self.asked(path);
        (
            s,
            match m {
                Some(m) => Some(s.stat(path, m)),
                None => None,
            },
        )
    }

    /// The same with hashes in place of the content.
    pub open spec fn summary_of(self, path: Seq<char>) -> (VfsView, Option<SummaryView>) {
        let (s, stat) = self.stat_of(path);
        (
            s,
            match stat {
                Some(stat) => Some(
                    SummaryView {
                        stat,
                        data_hash: fork_hash(s.data_of(path), s.data_of(path).len()),
                        resource_hash: fork_hash(s.resource_of(path), s.resource_of(path).len()),
                    },
                ),
                None => None,
            },
        )
    }

    /// The files after those of the first `n` paths that are picked were looked
    /// at, and what was found of each, without its content.
    pub open spec fn stats_of(self, list: Seq<Seq<char>>, picks: Seq<bool>, n: nat) -> (VfsView, Seq<StatView>)
        decreases n,
    {
        if n == 0 {
            (self, Seq::empty())
        } else {
            let (s, found) = self.stats_of(list, picks, (n - 1) as nat);
            if !picks[n - 1] {
                (s, found)
            } else {
                let (t, stat) = s.stat_of(list[n - 1]);
                (
                    t,
                    match stat {
                        Some(x) => found.push(x),
                        None => found,
                    },
                )
            }
        }
    }

    /// The same with hashes in place of the content.
    pub open spec fn summaries_of(self, list: Seq<Seq<char>>, picks: Seq<bool>, n: nat) -> (VfsView, Seq<SummaryView>)
        decreases n,
    {
        if n == 0 {
            (self, Seq::empty())
        } else {
            let (s, found) = self.summaries_of(list, picks, (n - 1) as nat);
            if !picks[n - 1] {
                (s, found)
            } else {
                let (t, summary) = s.summary_of(list[n - 1]);
                (
                    t,
                    match summary {
                        Some(x) => found.push(x),
                        None => found,
                    },
                )
            }
        }
    }
}

/// A call of `wanted` with this text returned `r`.
pub open spec fn answered<F: FnMut(&str) -> bool>(wanted: F, text: Seq<char>, r: bool) -> bool {
    exists|s: &str| s@ == text && #[trigger] call_ensures(wanted, (s,), r)
}

/// `picks` says of each path of a list what a call of `wanted` with it returned.
pub open spec fn picked<F: FnMut(&str) -> bool>(wanted: F, list: Seq<Seq<char>>, picks: Seq<bool>) -> bool {
    &&& picks.len() == list.len()
    &&& forall|i: int| 0 <= i < list.len() ==> #[trigger] answered(wanted, list[i], picks[i])
}

/// Puts a text into a list in order, unless it is there.
fn insert_in_order(list: &mut Vec<String>, text: String)
    requires
        ascending(texts(old(list)@)),
    ensures
        ascending(texts(final(list)@)),
        forall|p: Seq<char>| #[trigger]
            texts(final(list)@).contains(p) <==> texts(old(list)@).contains(p) || p == text@,
{
    let mut i: usize = 0;
    let ghost before = texts(list@);
    while i < list.len() && text_precedes(list[i].as_str(), text.as_str())
        invariant
            i <= list@.len(),
            before == texts(list@),
            *list == *old(list),
            forall|k: int| 0 <= k < i ==> precedes(#[trigger] before[k], text@),
        decreases list.len() - i,
    {
        assert(before[i as int] == list@[i as int]@);
        i += 1;
    }
    if i < list.len() && same_text(list[i].as_str(), text.as_str()) {
        assert(before[i as int] == text@);
        return ;
    }
    list.insert(i, text);
    proof {
        let after = texts(list@);
        assert(after =~= before.insert(i as int, text@));
        assert forall|a: int, b: int| 0 <= a < b < after.len() implies precedes(#[trigger] after[a], #[trigger] after[b]) by {
            if i < before.len() {
                lemma_precedes_total(before[i as int], text@);
            }
            if a < i && b == i {
                assert(precedes(before[a], text@));
            } else if a == i {
                assert(precedes(text@, before[i as int]));
                if b > i + 1 {
                    assert(precedes(before[i as int], before[b - 1]));
                    lemma_precedes_transitive(text@, before[i as int], before[b - 1]);
                }
            } else if b < i {
                assert(precedes(before[a], before[b]));
            } else if a < i {
                assert(precedes(before[a], before[b - 1]));
            } else {
                assert(precedes(before[a - 1], before[b - 1]));
            }
        }
        assert forall|p: Seq<char>| #[trigger] after.contains(p) <==> before.contains(p) || p == text@ by {
            if after.contains(p) {
                let k = choose|k: int| 0 <= k < after.len() && after[k] == p;
                if k < i {
                    assert(before[k] == p);
                } else if k > i {
                    assert(before[k - 1] == p);
                }
            }
            if before.contains(p) {
                let k = choose|k: int| 0 <= k < before.len() && before[k] == p;
                if k < i {
                    assert(after[k] == p);
                } else {
                    assert(after[k + 1] == p);
                }
            }
            assert(after[i as int] == text@);
        }
    }
}

impl Vfs {
    fn list_keys(list: &mut Vec<String>, keys: &PathMap<Vec<u8>>)
        requires
            keys.wf(),
            ascending(texts(old(list)@)),
        ensures
            ascending(texts(final(list)@)),
            forall|p: Seq<char>| #[trigger]
                texts(final(list)@).contains(p) <==> texts(old(list)@).contains(p) || normal_of(keys@.dom(), p),
    {
        let mut i: usize = 0;
        let ghost before = texts(list@);
        while i < keys.len()
            invariant
                i <= keys.size(),
                keys.wf(),
                ascending(texts(list@)),
                forall|p: Seq<char>| #[trigger]
                    texts(list@).contains(p) ==> before.contains(p) || normal_of(keys@.dom(), p),
                forall|p: Seq<char>| #[trigger] before.contains(p) ==> texts(list@).contains(p),
                forall|k: int|
                    0 <= k < i && lists_key(#[trigger] keys.key(k)) ==> texts(list@).contains(normal_path(keys.key(k))),
            decreases keys.size() - i,
        {
            let key: &String = keys.key_at(i);
            if !text_begins_with(key.as_str(), "__rsrc__") {
                let p: String = normalize_path(key.as_str());
                if p.as_str().unicode_len() > 0 {
                    let ghost path = p@;
                    assert(normal_of(keys@.dom(), path)) by {
                        assert(keys@.dom().contains(key@) && lists_key(key@));
                    }
                    insert_in_order(list, p);
                }
            }
            i += 1;
        }
        proof {
            assert forall|p: Seq<char>| normal_of(keys@.dom(), p) implies #[trigger] texts(list@).contains(p) by {
                let k = choose|k: Seq<char>| #[trigger]
                    keys@.dom().contains(k) && lists_key(k) && p == normal_path(k);
                keys.lemma_keys(k);
                let j = choose|j: int| 0 <= j < keys.size() && #[trigger] keys.key(j) == k;
                assert(texts(list@).contains(normal_path(keys.key(j))));
            }
        }
    }

    /// The paths of the files, each once, in order.
    pub fn file_paths(&self) -> (r: Vec<String>)
        requires
            self.wf(),
        ensures
            self@.lists(texts(r@)),
    {
        let mut list: Vec<String> = Vec::new();
        assert(texts(list@) =~= Seq::<Seq<char>>::empty());
        Vfs::list_keys(&mut list, self.data_map());
        Vfs::list_keys(&mut list, self.resource_map());
        proof {
            let all = texts(list@);
            assert forall|p: Seq<char>| #[trigger] all.contains(p) <==> self@.listed(p) by {
                if normal_of(self@.data.dom(), p) {
                    let k = choose|k: Seq<char>| #[trigger]
                        self@.data.dom().contains(k) && lists_key(k) && p == normal_path(k);
                    assert(self@.is_file(k));
                }
                if normal_of(self@.resources.dom(), p) {
                    let k = choose|k: Seq<char>| #[trigger]
                        self@.resources.dom().contains(k) && lists_key(k) && p == normal_path(k);
                    assert(self@.is_file(k));
                }
                if self@.listed(p) {
                    let k = choose|k: Seq<char>|
                        #[trigger] self@.is_file(k) && !begins_with(k, resource_mark()) && p == normal_path(k);
                    assert(lists_key(k));
                    if self@.data.dom().contains(k) {
                        assert(normal_of(self@.data.dom(), p));
                    } else {
                        assert(self@.resources.dom().contains(k));
                        assert(normal_of(self@.resources.dom(), p));
                    }
                }
            }
        }
        list
    }

    /// Asks the catalog about every path of a list.
    fn ask_all(&mut self, list: &Vec<String>)
        requires
            old(self).wf(),
        ensures
            final(self).wf(),
            final(self)@ == old(self)@.catalogued(texts(list@), list@.len()),
    {
        let mut i: usize = 0;
        while i < list.len()
            invariant
                i <= list@.len(),
                self.wf(),
                self@ == old(self)@.catalogued(texts(list@), i as nat),
            decreases list.len() - i,
        {
            assert(texts(list@)[i as int] == list@[i as int]@);
            self.ask(list[i].as_str());
            i += 1;
        }
    }

    /// The file at `path` without its content.
    pub fn file_stat(&mut self, path: &str) -> (r: Option<VfsFileStat>)
        requires
            old(self).wf(),
        ensures
            final(self).wf(),
            final(self)@ == old(self)@.stat_of(path@).0,
            r is Some <==> old(self)@.stat_of(path@).1 is Some,
            r matches Some(x) ==> Some(x@) == old(self)@.stat_of(path@).1,
    {
        let m: VfsMetadata = match self.ask(path) {
            Some(m) => m,
            None => return None,
        };
        let data_len: usize = match self.data(path) {
            Some(v) => v.len(),
            None => 0,
        };
        let resource_len: usize = match self.resource(path) {
            Some(v) => v.len(),
            None => 0,
        };
        Some(
            VfsFileStat {
                path: path.to_owned(),
                data_len,
                resource_len,
                file_type: m.file_type,
                creator: m.creator,
                finder_flags: m.finder_flags,
                created_date: m.created_date,
                modified_date: m.modified_date,
            },
        )
    }

    /// The file at `path` with hashes in place of its content.
    pub fn file_summary(&mut self, path: &str) -> (r: Option<VfsFileSummary>)
        requires
            old(self).wf(),
        ensures
            final(self).wf(),
            final(self)@ == old(self)@.summary_of(path@).0,
            r is Some <==> old(self)@.summary_of(path@).1 is Some,
            r matches Some(x) ==> Some(x@) == old(self)@.summary_of(path@).1,
    {
        let stat: VfsFileStat = match self.file_stat(path) {
            Some(s) => s,
            None => return None,
        };
        let data_hash: u64 = match self.data(path) {
            Some(v) => vfs_fork_hash(v),
            None => FORK_HASH_START,
        };
        let resource_hash: u64 = match self.resource(path) {
            Some(v) => vfs_fork_hash(v),
            None => FORK_HASH_START,
        };
        Some(
            VfsFileSummary {
                path: stat.path,
                data_len: stat.data_len,
                resource_len: stat.resource_len,
                data_hash,
                resource_hash,
                file_type: stat.file_type,
                creator: stat.creator,
                finder_flags: stat.finder_flags,
                created_date: stat.created_date,
                modified_date: stat.modified_date,
            },
        )
    }

    /// The summary of a file under a path in any form.
    pub fn normal_file_summary(&mut self, path: &str) -> (r: Option<VfsFileSummary>)
        requires
            old(self).wf(),
        ensures
            final(self).wf(),
            ({
                let p = normal_path(path@);
                if names_file(p) {
                    &&& final(self)@ == old(self)@.summary_of(p).0
                    &&& r is Some <==> old(self)@.summary_of(p).1 is Some
                    &&& r matches Some(x) ==> Some(x@) == old(self)@.summary_of(p).1
                } else {
                    r is None && final(self)@ == old(self)@
                }
            }),
    {
        let p: String = normalize_path(path);
        if !can_name_file(p.as_str()) {
            return None;
        }
        self.file_summary(p.as_str())
    }

    /// The files that are wanted, without their content.
    pub fn file_stats_where<F: FnMut(&str) -> bool>(&mut self, mut wanted: F) -> (r: Vec<VfsFileStat>)
        requires
            old(self).wf(),
            forall|s: &str| call_requires(wanted, (s,)),
        ensures
            final(self).wf(),
            old(self)@.stats_found(wanted, final(self)@, r@.map_values(|x: VfsFileStat| x@)),
    {
        let list: Vec<String> = self.file_paths();
        self.ask_all(&list);
        let ghost start = self@;
        let ghost asked = wanted;
        let ghost paths = texts(list@);
        let ghost mut picks: Seq<bool> = Seq::empty();
        let mut out: Vec<VfsFileStat> = Vec::new();
        let mut i: usize = 0;
        assert(out@.map_values(|x: VfsFileStat| x@) =~= Seq::<StatView>::empty());
        while i < list.len()
            invariant
                i <= list@.len(),
                wanted == asked,
                self.wf(),
                paths == texts(list@),
                picks.len() == i,
                forall|s: &str| call_requires(wanted, (s,)),
                picked(wanted, paths.take(i as int), picks),
                (self@, out@.map_values(|x: VfsFileStat| x@)) == start.stats_of(paths, picks, i as nat),
            decreases list.len() - i,
        {
            let path: &str = list[i].as_str();
            let take: bool = wanted(path);
            assert(paths[i as int] == path@);
            let ghost before = picks;
            let ghost found = out@.map_values(|x: VfsFileStat| x@);
            proof {
                picks = picks.push(take);
                lemma_picked_one_more(wanted, paths, before, i as int, path, take);
                start.lemma_stats_of_prefix(paths, before, picks, i as nat);
            }
            if take {
                if let Some(stat) = self.file_stat(path) {
                    let ghost x = stat@;
                    out.push(stat);
                    assert(out@.map_values(|x: VfsFileStat| x@) =~= found.push(x));
                }
            }
            i += 1;
        }
        assert(paths.take(paths.len() as int) =~= paths);
        out
    }

    /// The files that are wanted, with hashes in place of their content.
    pub fn file_summaries_where<F: FnMut(&str) -> bool>(&mut self, mut wanted: F) -> (r: Vec<VfsFileSummary>)
        requires
            old(self).wf(),
            forall|s: &str| call_requires(wanted, (s,)),
        ensures
            final(self).wf(),
            old(self)@.summaries_found(wanted, final(self)@, r@.map_values(|x: VfsFileSummary| x@)),
    {
        let list: Vec<String> = self.file_paths();
        self.ask_all(&list);
        let ghost start = self@;
        let ghost asked = wanted;
        let ghost paths = texts(list@);
        let ghost mut picks: Seq<bool> = Seq::empty();
        let mut out: Vec<VfsFileSummary> = Vec::new();
        let mut i: usize = 0;
        assert(out@.map_values(|x: VfsFileSummary| x@) =~= Seq::<SummaryView>::empty());
        while i < list.len()
            invariant
                i <= list@.len(),
                wanted == asked,
                self.wf(),
                paths == texts(list@),
                picks.len() == i,
                forall|s: &str| call_requires(wanted, (s,)),
                picked(wanted, paths.take(i as int), picks),
                (self@, out@.map_values(|x: VfsFileSummary| x@)) == start.summaries_of(paths, picks, i as nat),
            decreases list.len() - i,
        {
            let path: &str = list[i].as_str();
            let take: bool = wanted(path);
            assert(paths[i as int] == path@);
            let ghost before = picks;
            let ghost found = out@.map_values(|x: VfsFileSummary| x@);
            proof {
                picks = picks.push(take);
                lemma_picked_one_more(wanted, paths, before, i as int, path, take);
                start.lemma_summaries_of_prefix(paths, before, picks, i as nat);
            }
            if take {
                if let Some(summary) = self.file_summary(path) {
                    let ghost x = summary@;
                    out.push(summary);
                    assert(out@.map_values(|x: VfsFileSummary| x@) =~= found.push(x));
                }
            }
            i += 1;
        }
        assert(paths.take(paths.len() as int) =~= paths);
        out
    }
}

/// A path that is listed under its normal form.
pub open spec fn lists_key(k: Seq<char>) -> bool {
    !begins_with(k, resource_mark()) && normal_path(k).len() > 0
}

/// Path `p` is the normal form of a path of a set that is listed.
pub open spec fn normal_of(keys: Set<Seq<char>>, p: Seq<char>) -> bool {
    exists|k: Seq<char>| #[trigger] keys.contains(k) && lists_key(k) && p == normal_path(k)
}

proof fn lemma_picked_one_more<F: FnMut(&str) -> bool>(
    wanted: F,
    list: Seq<Seq<char>>,
    picks: Seq<bool>,
    i: int,
    s: &str,
    take: bool,
)
    requires
        0 <= i < list.len(),
        picked(wanted, list.take(i), picks),
        s@ == list[i],
        call_ensures(wanted, (s,), take),
    ensures
        picked(wanted, list.take(i + 1), picks.push(take)),
{
    let more = list.take(i + 1);
    let longer = picks.push(take);
    assert forall|k: int| 0 <= k < more.len() implies #[trigger] answered(wanted, more[k], longer[k]) by {
        if k < i {
            assert(answered(wanted, list.take(i)[k], picks[k]));
        }
    }
}

impl VfsView {
    /// `t` and `found` follow when the files were listed, catalogued, and those
    /// that are wanted looked at, without their content.
    pub open spec fn stats_found<F: FnMut(&str) -> bool>(self, wanted: F, t: VfsView, found: Seq<StatView>) -> bool {
        exists|list: Seq<Seq<char>>, picks: Seq<bool>|
            self.lists(list) && #[trigger] picked(wanted, list, picks) && (t, found) == self.catalogued(
                list,
                list.len(),
            ).stats_of(list, picks, list.len())
    }

    /// The same with hashes in place of the content.
    pub open spec fn summaries_found<F: FnMut(&str) -> bool>(self, wanted: F, t: VfsView, found: Seq<SummaryView>) -> bool {
        exists|list: Seq<Seq<char>>, picks: Seq<bool>|
            self.lists(list) && #[trigger] picked(wanted, list, picks) && (t, found) == self.catalogued(
                list,
                list.len(),
            ).summaries_of(list, picks, list.len())
    }

    proof fn lemma_stats_of_prefix(self, list: Seq<Seq<char>>, a: Seq<bool>, b: Seq<bool>, n: nat)
        requires
            n <= a.len() <= b.len(),
            a =~= b.take(a.len() as int),
        ensures
            self.stats_of(list, a, n) == self.stats_of(list, b, n),
        decreases n,
    {
        if n > 0 {
            self.lemma_stats_of_prefix(list, a, b, (n - 1) as nat);
            assert(a[n - 1] == b[n - 1]);
        }
    }

    proof fn lemma_summaries_of_prefix(self, list: Seq<Seq<char>>, a: Seq<bool>, b: Seq<bool>, n: nat)
        requires
            n <= a.len() <= b.len(),
            a =~= b.take(a.len() as int),
        ensures
            self.summaries_of(list, a, n) == self.summaries_of(list, b, n),
        decreases n,
    {
        if n > 0 {
            self.lemma_summaries_of_prefix(list, a, b, (n - 1) as nat);
            assert(a[n - 1] == b[n - 1]);
        }
    }
}

/// Cataloguing touches no fork and no entry that is there, and leaves an entry for
/// every file of the list.
proof fn lemma_catalogued(v: VfsView, list: Seq<Seq<char>>, n: nat)
    requires
        n <= list.len(),
    ensures
        v.catalogued(list, n).data == v.data,
        v.catalogued(list, n).resources == v.resources,
        forall|p: Seq<char>| #[trigger] v.metadata.dom().contains(p) ==> v.catalogued(list, n).metadata.dom().contains(p),
        forall|i: int|
            0 <= i < n && v.is_file(#[trigger] list[i]) ==> v.catalogued(list, n).metadata.dom().contains(list[i]),
    decreases n,
{
    if n > 0 {
        lemma_catalogued(v, list, (n - 1) as nat);
        let c = v.catalogued(list, (n - 1) as nat);
        c.lemma_with_metadata_keeps(list[n - 1]);
    }
}

/// Path `p` of a list is picked.
pub open spec fn chosen(list: Seq<Seq<char>>, picks: Seq<bool>, p: Seq<char>) -> bool {
    exists|i: int| 0 <= i < list.len() && picks[i] && #[trigger] list[i] == p
}

/// The path of an entry is picked.
pub open spec fn of_chosen(list: Seq<Seq<char>>, picks: Seq<bool>) -> spec_fn(SummaryView) -> bool {
    |s: SummaryView| chosen(list, picks, s.stat.path)
}

/// The same of an entry without hashes.
pub open spec fn stat_of_chosen(list: Seq<Seq<char>>, picks: Seq<bool>) -> spec_fn(StatView) -> bool {
    |s: StatView| chosen(list, picks, s.path)
}

proof fn lemma_chosen(list: Seq<Seq<char>>, picks: Seq<bool>, i: int)
    requires
        ascending(list),
        0 <= i < list.len(),
    ensures
        chosen(list, picks, list[i]) == picks[i],
{
    if chosen(list, picks, list[i]) {
        let k = choose|k: int| 0 <= k < list.len() && picks[k] && #[trigger] list[k] == list[i];
        if k < i {
            assert(precedes(list[k], list[i]));
            lemma_precedes_strict(list[i]);
        } else if i < k {
            assert(precedes(list[i], list[k]));
            lemma_precedes_strict(list[i]);
        }
    }
}

/// A catalogued volume stays as it is when a listed path is looked at.
proof fn lemma_asked_again(v: VfsView, list: Seq<Seq<char>>, i: int)
    requires
        0 <= i < list.len(),
    ensures
        v.catalogued(list, list.len()).asked(list[i]).0 == v.catalogued(list, list.len()),
{
    lemma_catalogued(v, list, list.len());
}

proof fn lemma_summaries_filtered(v: VfsView, list: Seq<Seq<char>>, all: Seq<bool>, picks: Seq<bool>, n: nat)
    requires
        v.lists(list),
        all == Seq::new(list.len(), |i: int| true),
        picks.len() == list.len(),
        n <= list.len(),
    ensures
        ({
            let c = v.catalogued(list, list.len());
            let (t, found) = c.summaries_of(list, picks, n);
            let (u, full) = c.summaries_of(list, all, n);
            &&& t == c
            &&& u == c
            &&& found == full.filter(of_chosen(list, picks))
        }),
    decreases n,
{
    let c = v.catalogued(list, list.len());
    reveal(Seq::filter);
    let wanted = of_chosen(list, picks);
    if n == 0 {
        assert(c.summaries_of(list, all, n).1.filter(wanted) =~= Seq::empty());
    } else {
        lemma_summaries_filtered(v, list, all, picks, (n - 1) as nat);
        lemma_asked_again(v, list, n - 1);
        lemma_chosen(list, picks, n - 1);
        let full = c.summaries_of(list, all, (n - 1) as nat).1;
        if let Some(x) = c.summary_of(list[n - 1]).1 {
            assert(full.push(x).drop_last() =~= full);
            assert(full.push(x).last() == x);
            assert(wanted(x) == picks[n - 1]);
            assert(full.push(x).filter(wanted) == if picks[n - 1] {
                full.filter(wanted).push(x)
            } else {
                full.filter(wanted)
            });
        }
    }
}

proof fn lemma_stats_filtered(v: VfsView, list: Seq<Seq<char>>, all: Seq<bool>, picks: Seq<bool>, n: nat)
    requires
        v.lists(list),
        all == Seq::new(list.len(), |i: int| true),
        picks.len() == list.len(),
        n <= list.len(),
    ensures
        ({
            let c = v.catalogued(list, list.len());
            let (t, found) = c.stats_of(list, picks, n);
            let (u, full) = c.stats_of(list, all, n);
            &&& t == c
            &&& u == c
            &&& found == full.filter(stat_of_chosen(list, picks))
        }),
    decreases n,
{
    let c = v.catalogued(list, list.len());
    reveal(Seq::filter);
    let wanted = stat_of_chosen(list, picks);
    if n == 0 {
        assert(c.stats_of(list, all, n).1.filter(wanted) =~= Seq::empty());
    } else {
        lemma_stats_filtered(v, list, all, picks, (n - 1) as nat);
        lemma_asked_again(v, list, n - 1);
        lemma_chosen(list, picks, n - 1);
        let full = c.stats_of(list, all, (n - 1) as nat).1;
        if let Some(x) = c.stat_of(list[n - 1]).1 {
            assert(full.push(x).drop_last() =~= full);
            assert(full.push(x).last() == x);
            assert(wanted(x) == picks[n - 1]);
            assert(full.push(x).filter(wanted) == if picks[n - 1] {
                full.filter(wanted).push(x)
            } else {
                full.filter(wanted)
            });
        }
    }
}

/// A filtered listing is the full one without the entries that are not wanted, in the
/// same order: what is asked about each listed path decides about its entry alone.
pub proof fn lemma_filtered_listing<F: FnMut(&str) -> bool>(v: VfsView, wanted: F, t: VfsView, found: Seq<SummaryView>)
    requires
        v.summaries_found(wanted, t, found),
    ensures
        exists|list: Seq<Seq<char>>, picks: Seq<bool>|
            {
                let full = v.catalogued(list, list.len()).summaries_of(
                    list,
                    Seq::new(list.len(), |i: int| true),
                    list.len(),
                );
                &&& v.lists(list)
                &&& #[trigger] picked(wanted, list, picks)
                &&& full.0 == t
                &&& found == full.1.filter(of_chosen(list, picks))
            },
{
    let (list, picks) = choose|list: Seq<Seq<char>>, picks: Seq<bool>|
        v.lists(list) && #[trigger] picked(wanted, list, picks) && (t, found) == v.catalogued(
            list,
            list.len(),
        ).summaries_of(list, picks, list.len());
    let all = Seq::new(list.len(), |i: int| true);
    lemma_summaries_filtered(v, list, all, picks, list.len());
    assert(picked(wanted, list, picks));
}

/// The same of the listing without hashes.
pub proof fn lemma_filtered_stats<F: FnMut(&str) -> bool>(v: VfsView, wanted: F, t: VfsView, found: Seq<StatView>)
    requires
        v.stats_found(wanted, t, found),
    ensures
        exists|list: Seq<Seq<char>>, picks: Seq<bool>|
            {
                let full = v.catalogued(list, list.len()).stats_of(
                    list,
                    Seq::new(list.len(), |i: int| true),
                    list.len(),
                );
                &&& v.lists(list)
                &&& #[trigger] picked(wanted, list, picks)
                &&& full.0 == t
                &&& found == full.1.filter(stat_of_chosen(list, picks))
            },
{
    let (list, picks) = choose|list: Seq<Seq<char>>, picks: Seq<bool>|
        v.lists(list) && #[trigger] picked(wanted, list, picks) && (t, found) == v.catalogued(
            list,
            list.len(),
        ).stats_of(list, picks, list.len());
    let all = Seq::new(list.len(), |i: int| true);
    lemma_stats_filtered(v, list, all, picks, list.len());
    assert(picked(wanted, list, picks));
}

proof fn lemma_listed_entry(v: VfsView, list: Seq<Seq<char>>, all: Seq<bool>, n: nat, j: int)
    requires
        v.lists(list),
        all == Seq::new(list.len(), |i: int| true),
        n <= list.len(),
        0 <= j < v.catalogued(list, list.len()).summaries_of(list, all, n).1.len(),
    ensures
        ({
            let c = v.catalogued(list, list.len());
            let x = c.summaries_of(list, all, n).1[j];
            &&& c.summary_of(x.stat.path) == (c, Some(x))
            &&& list.contains(x.stat.path)
        }),
    decreases n,
{
    if n > 0 {
        let c = v.catalogued(list, list.len());
        lemma_summaries_filtered(v, list, all, all, (n - 1) as nat);
        lemma_asked_again(v, list, n - 1);
        let before = c.summaries_of(list, all, (n - 1) as nat).1;
        if j < before.len() {
            lemma_listed_entry(v, list, all, (n - 1) as nat, j);
        } else {
            assert(list.contains(list[n - 1]));
        }
    }
}

/// `found` has, in ascending order, an entry for each of the first `n` paths of a list at
/// which there is a file, and only entries for those paths.
spec fn covers(v: VfsView, list: Seq<Seq<char>>, n: nat, found: Seq<SummaryView>) -> bool {
    &&& forall|j: int| 0 <= j < found.len() ==> list.take(n as int).contains((#[trigger] found[j]).stat.path)
    &&& forall|i: int, j: int|
        0 <= i < j < found.len() ==> precedes((#[trigger] found[i]).stat.path, (#[trigger] found[j]).stat.path)
    &&& forall|k: int|
        0 <= k < n && v.is_file(#[trigger] list[k]) ==> exists|j: int|
            0 <= j < found.len() && (#[trigger] found[j]).stat.path == list[k]
}

proof fn lemma_covers(v: VfsView, list: Seq<Seq<char>>, all: Seq<bool>, n: nat)
    requires
        v.lists(list),
        all == Seq::new(list.len(), |i: int| true),
        n <= list.len(),
    ensures
        covers(v, list, n, v.catalogued(list, list.len()).summaries_of(list, all, n).1),
    decreases n,
{
    let c = v.catalogued(list, list.len());
    if n > 0 {
        lemma_covers(v, list, all, (n - 1) as nat);
        lemma_summaries_filtered(v, list, all, all, (n - 1) as nat);
        lemma_catalogued(v, list, list.len());
        let before = c.summaries_of(list, all, (n - 1) as nat).1;
        let found = c.summaries_of(list, all, n).1;
        let short = list.take(n - 1);
        let more = list.take(n as int);
        assert(more =~= short.push(list[n - 1]));
        assert forall|j: int| 0 <= j < found.len() implies more.contains((#[trigger] found[j]).stat.path) by {
            if j < before.len() {
                assert(short.contains(before[j].stat.path));
                let k = choose|k: int| 0 <= k < short.len() && short[k] == before[j].stat.path;
                assert(more[k] == before[j].stat.path);
            } else {
                assert(more[n - 1] == found[j].stat.path);
            }
        }
        assert forall|i: int, j: int| 0 <= i < j < found.len() implies precedes(
            (#[trigger] found[i]).stat.path,
            (#[trigger] found[j]).stat.path,
        ) by {
            assert(short.contains(before[i].stat.path));
            let k = choose|k: int| 0 <= k < short.len() && short[k] == before[i].stat.path;
            if j < before.len() {
                assert(precedes(before[i].stat.path, before[j].stat.path));
            } else {
                assert(precedes(list[k], list[n - 1]));
            }
        }
        assert forall|k: int| 0 <= k < n && v.is_file(#[trigger] list[k]) implies exists|j: int|
            0 <= j < found.len() && (#[trigger] found[j]).stat.path == list[k] by {
            if k < n - 1 {
                let j = choose|j: int| 0 <= j < before.len() && (#[trigger] before[j]).stat.path == list[k];
                assert(found[j].stat.path == list[k]);
            } else {
                assert(found[before.len() as int].stat.path == list[k]);
            }
        }
    }
}

/// A full listing has one entry for every listed path at which there is a file, and no
/// entry for any other path, in the order of the paths, with the lengths and the hashes of
/// the forks. It changes no fork.
pub proof fn lemma_full_listing(v: VfsView, list: Seq<Seq<char>>, t: VfsView, found: Seq<SummaryView>)
    requires
        v.lists(list),
        (t, found) == v.catalogued(list, list.len()).summaries_of(list, Seq::new(list.len(), |i: int| true), list.len()),
    ensures
        t.data == v.data,
        t.resources == v.resources,
        forall|j: int|
            0 <= j < found.len() ==> {
                let s = #[trigger] found[j];
                let p = s.stat.path;
                &&& v.listed(p)
                &&& s.stat.data_len == v.data_of(p).len()
                &&& s.stat.resource_len == v.resource_of(p).len()
                &&& s.data_hash == fork_hash(v.data_of(p), v.data_of(p).len())
                &&& s.resource_hash == fork_hash(v.resource_of(p), v.resource_of(p).len())
            },
        forall|i: int, j: int|
            0 <= i < j < found.len() ==> precedes((#[trigger] found[i]).stat.path, (#[trigger] found[j]).stat.path),
        forall|p: Seq<char>| #[trigger] v.listed(p) && v.is_file(p) ==> exists|j: int|
            0 <= j < found.len() && (#[trigger] found[j]).stat.path == p,
{
    let all = Seq::new(list.len(), |i: int| true);
    lemma_summaries_filtered(v, list, all, all, list.len());
    lemma_catalogued(v, list, list.len());
    lemma_covers(v, list, all, list.len());
    assert(list.take(list.len() as int) =~= list);
    assert forall|j: int| 0 <= j < found.len() implies {
        let s = #[trigger] found[j];
        let p = s.stat.path;
        &&& v.listed(p)
        &&& s.stat.data_len == v.data_of(p).len()
        &&& s.stat.resource_len == v.resource_of(p).len()
        &&& s.data_hash == fork_hash(v.data_of(p), v.data_of(p).len())
        &&& s.resource_hash == fork_hash(v.resource_of(p), v.resource_of(p).len())
    } by {
        lemma_listed_entry(v, list, all, list.len(), j);
        assert(list.contains(found[j].stat.path));
    }
    assert forall|p: Seq<char>| #[trigger] v.listed(p) && v.is_file(p) implies exists|j: int|
        0 <= j < found.len() && (#[trigger] found[j]).stat.path == p by {
        assert(list.contains(p));
        let k = choose|k: int| 0 <= k < list.len() && list[k] == p;
        assert(v.is_file(list[k]));
    }
}

/// Behind a full listing, looking up the path of an entry, in any form, gives that entry
/// and changes nothing, unless the path begins with the mark of a resource fork. The
/// entry's own path is such a form.
pub proof fn lemma_lookup_gives_listed(v: VfsView, list: Seq<Seq<char>>, t: VfsView, found: Seq<SummaryView>, j: int, path: Seq<char>)
    requires
        v.lists(list),
        (t, found) == v.catalogued(list, list.len()).summaries_of(list, Seq::new(list.len(), |i: int| true), list.len()),
        0 <= j < found.len(),
        !begins_with(found[j].stat.path, resource_mark()),
        path == found[j].stat.path || normal_path(path) == found[j].stat.path,
    ensures
        names_file(normal_path(path)),
        normal_path(path) == found[j].stat.path,
        t.summary_of(normal_path(path)) == (t, Some(found[j])),
{
    let all = Seq::new(list.len(), |i: int| true);
    lemma_summaries_filtered(v, list, all, all, list.len());
    lemma_listed_entry(v, list, all, list.len(), j);
    let p = found[j].stat.path;
    assert(v.listed(p));
    let k = choose|k: Seq<char>| #[trigger] v.is_file(k) && !begins_with(k, resource_mark()) && p == normal_path(k);
    lemma_normal_path_is_normal(k);
    lemma_normal_path_is_stable(p);
}

/// A summary that is found under a path has that path.
pub proof fn lemma_summary_path(v: VfsView, path: Seq<char>)
    ensures
        v.summary_of(path).1 matches Some(s) ==> s.stat.path == path,
{
}

/// An entry of a folder.
pub struct CatalogEntry {
    pub is_directory: bool,
    pub name: String,
}

/// An entry of a folder as a mathematical value.
pub struct CatalogEntryView {
    pub is_directory: bool,
    pub name: Seq<char>,
}

impl View for CatalogEntry {
    type V = CatalogEntryView;

    open spec fn view(&self) -> CatalogEntryView {
        CatalogEntryView { is_directory: self.is_directory, name: self.name@ }
    }
}

impl VfsView {
    /// The folders in folder `id` among the first `n`, in the order in which they were
    /// made.
    pub open spec fn folders_in(self, id: u32, n: nat) -> Seq<CatalogEntryView>
        decreases n,
    {
        if n == 0 {
            Seq::empty()
        } else {
            let before = self.folders_in(id, (n - 1) as nat);
            if self.directories[n - 1].parent == id {
                before.push(CatalogEntryView { is_directory: true, name: base_name(self.directories[n - 1].path) })
            } else {
                before
            }
        }
    }

    /// The files in folder `id` among the first `n` of a list.
    pub open spec fn files_in(self, list: Seq<Seq<char>>, id: u32, n: nat) -> Seq<CatalogEntryView>
        decreases n,
    {
        if n == 0 {
            Seq::empty()
        } else {
            let before = self.files_in(list, id, (n - 1) as nat);
            if self.metadata.dom().contains(list[n - 1]) && self.metadata[list[n - 1]].parent_dir_id == id {
                before.push(CatalogEntryView { is_directory: false, name: base_name(list[n - 1]) })
            } else {
                before
            }
        }
    }

    /// `found` is what the catalog shows of folder `id`: its folders, then its files in
    /// the order of their paths.
    pub open spec fn catalog_of(self, id: u32, found: Seq<CatalogEntryView>) -> bool {
        exists|list: Seq<Seq<char>>| #[trigger]
            self.lists(list) && found == self.folders_in(id, self.directories.len()) + self.files_in(
                list,
                id,
                list.len(),
            )
    }
}

impl Vfs {
    /// What the catalog shows of folder `id`.
    pub fn list_vfs_catalog_entries(&self, id: u32) -> (r: Vec<CatalogEntry>)
        requires
            self.wf(),
        ensures
            self@.catalog_of(id, r@.map_values(|e: CatalogEntry| e@)),
    {
        let mut out: Vec<CatalogEntry> = Vec::new();
        let mut i: usize = 0;
        assert(out@.map_values(|e: CatalogEntry| e@) =~= Seq::<CatalogEntryView>::empty());
        while i < self.dir_count()
            invariant
                i <= self@.directories.len(),
                out@.map_values(|e: CatalogEntry| e@) == self@.folders_in(id, i as nat),
            decreases self@.directories.len() - i,
        {
            let ghost before = out@.map_values(|e: CatalogEntry| e@);
            let (parent, path): (u32, &str) = self.dir_entry(i);
            if parent == id {
                let name: String = path_base_name(path);
                out.push(CatalogEntry { is_directory: true, name });
                assert(out@.map_values(|e: CatalogEntry| e@) =~= before.push(
                    CatalogEntryView { is_directory: true, name: name@ },
                ));
            }
            i += 1;
        }
        let ghost folders = out@.map_values(|e: CatalogEntry| e@);
        let list: Vec<String> = self.file_paths();
        let ghost paths = texts(list@);
        let mut k: usize = 0;
        assert(folders + self@.files_in(paths, id, 0) =~= folders);
        while k < list.len()
            invariant
                k <= list@.len(),
                self.wf(),
                paths == texts(list@),
                out@.map_values(|e: CatalogEntry| e@) == folders + self@.files_in(paths, id, k as nat),
            decreases list.len() - k,
        {
            let ghost before = out@.map_values(|e: CatalogEntry| e@);
            assert(paths[k as int] == list@[k as int]@);
            if let Some(m) = self.metadata(list[k].as_str()) {
                if m.parent_dir_id == id {
                    let name: String = path_base_name(list[k].as_str());
                    out.push(CatalogEntry { is_directory: false, name });
                    assert(out@.map_values(|e: CatalogEntry| e@) =~= before.push(
                        CatalogEntryView { is_directory: false, name: name@ },
                    ));
                    assert(before.push(CatalogEntryView { is_directory: false, name: name@ }) =~= folders
                        + self@.files_in(paths, id, k as nat).push(
                        CatalogEntryView { is_directory: false, name: name@ },
                    ));
                }
            }
            k += 1;
        }
        assert(self@.lists(paths));
        out
    }
}

} // verus!

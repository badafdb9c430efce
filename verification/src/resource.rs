use vstd::prelude::*;

verus! {

/// The big-endian word at position `i` of some bytes.
pub open spec fn be16(s: Seq<u8>, i: int) -> u16 {
    (s[i] * 256 + s[i + 1]) as u16
}

/// The big-endian long at position `i` of some bytes.
pub open spec fn be32(s: Seq<u8>, i: int) -> u32 {
    (s[i] * 0x100_0000 + s[i + 1] * 0x1_0000 + s[i + 2] * 256 + s[i + 3]) as u32
}

/// Reads a big-endian word.
pub fn read_be16(s: &Vec<u8>, i: usize) -> (r: u16)
    requires
        i + 2 <= s@.len(),
    ensures
        r == be16(s@, i as int),
{
    assert(i + 2 <= s.len());
    s[i] as u16 * 256 + s[i + 1] as u16
}

/// Reads a big-endian long.
pub fn read_be32(s: &Vec<u8>, i: usize) -> (r: u32)
    requires
        i + 4 <= s@.len(),
    ensures
        r == be32(s@, i as int),
{
    assert(i + 4 <= s.len());
    s[i] as u32 * 0x100_0000 + s[i + 1] as u32 * 0x1_0000 + s[i + 2] as u32 * 256 + s[i + 3] as u32
}

/// The four characters of a resource type as a number.
pub fn four_char(code: [u8; 4]) -> (r: u32)
    ensures
        r == be32(code@, 0),
{
    code[0] as u32 * 0x100_0000 + code[1] as u32 * 0x1_0000 + code[2] as u32 * 256 + code[3] as u32
}

/// Resource type `CODE`.
pub const CODE_TYPE: u32 = 0x434F_4445;
/// Resource type `DATA`.
pub const DATA_TYPE: u32 = 0x4441_5441;
/// Resource type `SIZE`.
pub const SIZE_TYPE: u32 = 0x5349_5A45;

/// A resource.
pub struct Resource {
    pub res_type: u32,
    pub id: i16,
    pub data: Vec<u8>,
}

/// A resource as a mathematical value.
pub struct ResourceView {
    pub res_type: u32,
    pub id: i16,
    pub data: Seq<u8>,
}

impl Resource {
    pub open spec fn view(&self) -> ResourceView {
        ResourceView { res_type: self.res_type, id: self.id, data: self.data@ }
    }
}

/// The resources of a file, in the order of its resource map.
pub struct ResourceFork {
    pub resources: Vec<Resource>,
}

/// The first resource of some type and number, from position `from` on.
pub open spec fn resource_at(rs: Seq<ResourceView>, res_type: u32, id: i16, from: int) -> Option<int>
    decreases rs.len() - from,
{
    if from < 0 || from >= rs.len() {
        None
    } else if rs[from].res_type == res_type && rs[from].id == id {
        Some(from)
    } else {
        resource_at(rs, res_type, id, from + 1)
    }
}

/// The resource that the reference at `at` stands for: its number is at the
/// reference, its data is where the last three bytes of the second long say.
pub open spec fn reference(s: Seq<u8>, data_start: int, res_type: u32, at: int) -> Option<ResourceView> {
    if at + 12 > s.len() {
        None
    } else {
        let from = data_start + s[at + 5] * 0x1_0000 + s[at + 6] * 256 + s[at + 7];
        if from + 4 > s.len() || from + 4 + be32(s, from) > s.len() {
            None
        } else {
            Some(
                ResourceView {
                    res_type,
                    id: be16(s, at) as i16,
                    data: s.subrange(from + 4, from + 4 + be32(s, from)),
                },
            )
        }
    }
}

/// The resources of the `n` references at `at`.
pub open spec fn references(s: Seq<u8>, data_start: int, res_type: u32, at: int, n: nat) -> Option<Seq<ResourceView>>
    decreases n,
{
    if n == 0 {
        Some(Seq::empty())
    } else {
        match (
            references(s, data_start, res_type, at, (n - 1) as nat),
            reference(s, data_start, res_type, at + 12 * (n - 1)),
        ) {
            (Some(rs), Some(r)) => Some(rs.push(r)),
            _ => None,
        }
    }
}

/// The resources of the first `n` types of the type list at `list`. Counts in
/// the map are one too small.
pub open spec fn typed_resources(s: Seq<u8>, data_start: int, list: int, n: nat) -> Option<Seq<ResourceView>>
    decreases n,
{
    if n == 0 {
        Some(Seq::empty())
    } else {
        let at = list + 2 + 8 * (n - 1);
        match typed_resources(s, data_start, list, (n - 1) as nat) {
            Some(rs) => if at + 8 > s.len() {
                None
            } else {
                match references(
                    s,
                    data_start,
                    be32(s, at),
                    list + be16(s, at + 6),
                    (be16(s, at + 4) + 1) as nat,
                ) {
                    Some(more) => Some(rs + more),
                    None => None,
                }
            },
            None => None,
        }
    }
}

/// How many types the type list at `list` has; the count there is one too
/// small, and the largest number stands for none.
pub open spec fn type_count(s: Seq<u8>, list: int) -> nat {
    if be16(s, list) == 0xFFFF {
        0
    } else {
        (be16(s, list) + 1) as nat
    }
}

/// The resources that the bytes of a resource fork hold. The fork begins with
/// the places of its data and of its map; the map says where its type list is.
pub open spec fn fork_resources(s: Seq<u8>) -> Option<Seq<ResourceView>> {
    if s.len() < 16 {
        None
    } else {
        let map = be32(s, 4) as int;
        if map + 28 > s.len() {
            None
        } else {
            let list = map + be16(s, map + 24);
            if list + 2 > s.len() {
                None
            } else {
                typed_resources(s, be32(s, 0) as int, list, type_count(s, list))
            }
        }
    }
}

proof fn lemma_reference_sizes(s: Seq<u8>, data_start: int, res_type: u32, at: int, n: nat)
    requires
        data_start >= 0,
        references(s, data_start, res_type, at, n) is Some,
    ensures
        forall|k: int|
            0 <= k < references(s, data_start, res_type, at, n)->0.len() ==> (#[trigger] references(
                s,
                data_start,
                res_type,
                at,
                n,
            )->0[k]).data.len() <= u32::MAX,
    decreases n,
{
    if n > 0 {
        lemma_reference_sizes(s, data_start, res_type, at, (n - 1) as nat);
    }
}

proof fn lemma_typed_sizes(s: Seq<u8>, data_start: int, list: int, n: nat)
    requires
        data_start >= 0,
        typed_resources(s, data_start, list, n) is Some,
    ensures
        forall|k: int|
            0 <= k < typed_resources(s, data_start, list, n)->0.len() ==> (#[trigger] typed_resources(
                s,
                data_start,
                list,
                n,
            )->0[k]).data.len() <= u32::MAX,
    decreases n,
{
    if n > 0 {
        lemma_typed_sizes(s, data_start, list, (n - 1) as nat);
        let at = list + 2 + 8 * (n - 1);
        lemma_reference_sizes(
            s,
            data_start,
            be32(s, at),
            list + be16(s, at + 6),
            (be16(s, at + 4) + 1) as nat,
        );
    }
}

/// No resource of a fork is larger than a long can say.
pub proof fn lemma_fork_sizes(s: Seq<u8>)
    requires
        fork_resources(s) is Some,
    ensures
        forall|k: int|
            0 <= k < fork_resources(s)->0.len() ==> (#[trigger] fork_resources(s)->0[k]).data.len() <= u32::MAX,
{
    let list = be32(s, 4) as int + be16(s, be32(s, 4) as int + 24);
    lemma_typed_sizes(s, be32(s, 0) as int, list, type_count(s, list));
}

impl ResourceFork {
    pub open spec fn view(&self) -> Seq<ResourceView> {
        self.resources@.map_values(|r: Resource| r@)
    }

    /// Reads the bytes of a resource fork.
    pub fn parse(bytes: &Vec<u8>) -> (r: Option<Self>)
        ensures
            r is Some <==> fork_resources(bytes@) is Some,
            r matches Some(f) ==> f@ == fork_resources(bytes@)->0,
    {
        if bytes.len() < 16 {
            return None;
        }
        let map: u64 = read_be32(bytes, 4) as u64;
        if map + 28 > bytes.len() as u64 {
            return None;
        }
        let list: u64 = map + read_be16(bytes, map as usize + 24) as u64;
        if list + 2 > bytes.len() as u64 {
            return None;
        }
        let coded: u16 = read_be16(bytes, list as usize);
        let n: u32 = if coded == 0xFFFF { 0 } else { coded as u32 + 1 };
        let data_start: u64 = read_be32(bytes, 0) as u64;
        let mut out: ResourceFork = ResourceFork { resources: Vec::new() };
        let mut i: u32 = 0;
        assert(out@ =~= Seq::<ResourceView>::empty());
        while i < n
            invariant
                i <= n <= 0x1_0000,
                list + 2 <= bytes@.len() <= usize::MAX,
                list <= 0x2_0000_0000,
                data_start <= u32::MAX,
                bytes@.len() >= 16,
                n == type_count(bytes@, list as int),
                fork_resources(bytes@) == typed_resources(bytes@, data_start as int, list as int, n as nat),
                typed_resources(bytes@, data_start as int, list as int, i as nat) == Some(out@),
            decreases n - i,
        {
            let at: u64 = list + 2 + 8 * i as u64;
            if at + 8 > bytes.len() as u64 {
                proof {
                    lemma_types_fail(bytes@, data_start as int, list as int, (i + 1) as nat, n as nat);
                }
                return None;
            }
            let res_type: u32 = read_be32(bytes, at as usize);
            let count: u32 = read_be16(bytes, at as usize + 4) as u32 + 1;
            let refs: u64 = list + read_be16(bytes, at as usize + 6) as u64;
            if !out.read_references(bytes, data_start, res_type, refs, count) {
                proof {
                    lemma_types_fail(bytes@, data_start as int, list as int, (i + 1) as nat, n as nat);
                }
                return None;
            }
            i += 1;
        }
        Some(out)
    }

    fn read_references(&mut self, bytes: &Vec<u8>, data_start: u64, res_type: u32, at: u64, n: u32) -> (r: bool)
        requires
            data_start <= u32::MAX,
            at <= 0x3_0000_0000,
            n <= 0x1_0000,
        ensures
            r == (references(bytes@, data_start as int, res_type, at as int, n as nat) is Some),
            r ==> final(self)@ == old(self)@ + references(bytes@, data_start as int, res_type, at as int, n as nat)->0,
    {
        let mut i: u32 = 0;
        assert(self@ =~= old(self)@ + Seq::<ResourceView>::empty());
        while i < n
            invariant
                i <= n <= 0x1_0000,
                data_start <= u32::MAX,
                at <= 0x3_0000_0000,
                references(bytes@, data_start as int, res_type, at as int, i as nat) is Some,
                self@ == old(self)@ + references(bytes@, data_start as int, res_type, at as int, i as nat)->0,
            decreases n - i,
        {
            let entry: u64 = at + 12 * i as u64;
            proof {
                assert(references(bytes@, data_start as int, res_type, at as int, (i + 1) as nat) is None
                    ==> references(bytes@, data_start as int, res_type, at as int, n as nat) is None) by {
                    if references(bytes@, data_start as int, res_type, at as int, (i + 1) as nat) is None {
                        lemma_references_fail(bytes@, data_start as int, res_type, at as int, (i + 1) as nat, n as nat);
                    }
                }
            }
            if entry + 12 > bytes.len() as u64 {
                return false;
            }
            let e: usize = entry as usize;
            let from: u64 = data_start + bytes[e + 5] as u64 * 0x1_0000 + bytes[e + 6] as u64 * 256 + bytes[e + 7] as u64;
            if from + 4 > bytes.len() as u64 {
                return false;
            }
            let size: u32 = read_be32(bytes, from as usize);
            if from + 4 + size as u64 > bytes.len() as u64 {
                return false;
            }
            let id: i16 = read_be16(bytes, e) as i16;
            let data: Vec<u8> = slice_bytes(bytes, from as usize + 4, size as usize);
            let ghost before = self@;
            let resource: Resource = Resource { res_type, id, data };
            self.resources.push(resource);
            assert(self@ =~= before.push(resource@));
            assert(resource@ == reference(bytes@, data_start as int, res_type, at + 12 * i)->0);
            i += 1;
            assert(self@ =~= old(self)@ + references(bytes@, data_start as int, res_type, at as int, i as nat)->0);
        }
        true
    }

    /// The position of the resource of some type and number.
    pub fn find(&self, res_type: u32, id: i16) -> (r: Option<usize>)
        ensures
            r is None ==> resource_at(self@, res_type, id, 0) is None,
            r matches Some(i) ==> i < self@.len() && resource_at(self@, res_type, id, 0) == Some(i as int)
                && self@[i as int].res_type == res_type && self@[i as int].id == id,
    {
        let mut i: usize = 0;
        while i < self.resources.len()
            invariant
                i <= self.resources.len(),
                resource_at(self@, res_type, id, 0) == resource_at(self@, res_type, id, i as int),
            decreases self.resources.len() - i,
        {
            if self.resources[i].res_type == res_type && self.resources[i].id == id {
                return Some(i);
            }
            i += 1;
        }
        None
    }
}

/// Part of some bytes.
pub fn slice_bytes(bytes: &Vec<u8>, from: usize, n: usize) -> (r: Vec<u8>)
    requires
        from + n <= bytes@.len(),
    ensures
        r@ == bytes@.subrange(from as int, from + n),
{
    assert(from + n <= bytes.len());
    let mut out: Vec<u8> = Vec::new();
    let mut i: usize = 0;
    while i < n
        invariant
            i <= n,
            from + n <= bytes@.len() <= usize::MAX,
            out@ == bytes@.subrange(from as int, from + i),
        decreases n - i,
    {
        out.push(bytes[from + i]);
        assert(bytes@.subrange(from as int, from + i + 1) =~= bytes@.subrange(from as int, from + i).push(
            bytes@[from + i],
        ));
        i += 1;
    }
    out
}

proof fn lemma_references_fail(s: Seq<u8>, data_start: int, res_type: u32, at: int, i: nat, n: nat)
    requires
        i <= n,
        references(s, data_start, res_type, at, i) is None,
    ensures
        references(s, data_start, res_type, at, n) is None,
    decreases n,
{
    if i < n {
        lemma_references_fail(s, data_start, res_type, at, i, (n - 1) as nat);
    }
}

proof fn lemma_types_fail(s: Seq<u8>, data_start: int, list: int, i: nat, n: nat)
    requires
        i <= n,
        typed_resources(s, data_start, list, i) is None,
    ensures
        typed_resources(s, data_start, list, n) is None,
    decreases n,
{
    if i < n {
        lemma_types_fail(s, data_start, list, i, (n - 1) as nat);
    }
}

} // verus!

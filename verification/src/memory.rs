use vstd::prelude::*;

verus! {

/// First address of the guest heap.
pub const HEAP_BASE: u32 = 0x0020_0000;
/// First address of the arena for code stubs that the guest heap never sees.
pub const SYNTHETIC_BASE: u32 = 0x0000_2000;
/// End of that arena.
pub const SYNTHETIC_LIMIT: u32 = 0x0000_8000;

/// The byte at `a`; memory that is not there reads as zero.
pub open spec fn byte_at(m: Seq<u8>, a: u32) -> u8 {
    if a < m.len() { m[a as int] } else { 0 }
}

/// The big-endian word at `a`.
#[verifier::opaque]
pub open spec fn word_at(m: Seq<u8>, a: u32) -> u16 {
    (byte_at(m, a) * 256 + byte_at(m, a.wrapping_add(1))) as u16
}

/// The big-endian long at `a`.
#[verifier::opaque]
pub open spec fn long_at(m: Seq<u8>, a: u32) -> u32 {
    (word_at(m, a) * 0x1_0000 + word_at(m, a.wrapping_add(2))) as u32
}

/// Memory `m` with the byte at `a` set; a write outside memory is lost.
pub open spec fn set_byte(m: Seq<u8>, a: u32, v: u8) -> Seq<u8> {
    if a < m.len() { m.update(a as int, v) } else { m }
}

/// Memory `m` with the big-endian word at `a` set.
#[verifier::opaque]
pub open spec fn set_word(m: Seq<u8>, a: u32, v: u16) -> Seq<u8> {
    set_byte(set_byte(m, a, (v / 256) as u8), a.wrapping_add(1), (v % 256) as u8)
}

/// Memory `m` with the big-endian long at `a` set.
#[verifier::opaque]
pub open spec fn set_long(m: Seq<u8>, a: u32, v: u32) -> Seq<u8> {
    set_word(set_word(m, a, (v / 0x1_0000) as u16), a.wrapping_add(2), (v % 0x1_0000) as u16)
}

/// Memory `m` with the `n` bytes from `a` on set to `v`.
#[verifier::opaque]
pub open spec fn set_fill(m: Seq<u8>, a: u32, n: nat, v: u8) -> Seq<u8> {
    Seq::new(m.len(), |i: int| if a <= i < a + n && i <= u32::MAX { v } else { m[i] })
}

/// Memory `m` with `bytes` laid down from `a` on.
#[verifier::opaque]
pub open spec fn set_bytes(m: Seq<u8>, a: u32, bytes: Seq<u8>) -> Seq<u8> {
    Seq::new(m.len(), |i: int| if a <= i < a + bytes.len() && i <= u32::MAX { bytes[i - a] } else { m[i] })
}

/// The `n` bytes from `a` on.
pub open spec fn bytes_at(m: Seq<u8>, a: u32, n: nat) -> Seq<u8> {
    Seq::new(n, |i: int| byte_at(m, a.wrapping_add(i as u32)))
}

/// Two byte ranges that do not meet.
pub open spec fn apart(a: u32, n: int, b: u32, k: int) -> bool {
    a + n <= b || b + k <= a
}

pub broadcast proof fn lemma_set_word_len(m: Seq<u8>, a: u32, v: u16)
    ensures
        (#[trigger] set_word(m, a, v)).len() == m.len(),
{
    reveal(set_word);
}

pub broadcast proof fn lemma_set_long_len(m: Seq<u8>, a: u32, v: u32)
    ensures
        (#[trigger] set_long(m, a, v)).len() == m.len(),
{
    reveal(set_long);
    reveal(set_word);
}

pub broadcast proof fn lemma_set_fill_len(m: Seq<u8>, a: u32, n: nat, v: u8)
    ensures
        (#[trigger] set_fill(m, a, n, v)).len() == m.len(),
{
    reveal(set_fill);
}

pub broadcast proof fn lemma_set_bytes_len(m: Seq<u8>, a: u32, bytes: Seq<u8>)
    ensures
        (#[trigger] set_bytes(m, a, bytes)).len() == m.len(),
{
    reveal(set_bytes);
}

/// A word that was written inside memory reads back.
pub broadcast proof fn lemma_word_of_set_word(m: Seq<u8>, a: u32, v: u16)
    requires
        a + 2 <= m.len() <= 0x1_0000_0000,
    ensures
        #[trigger] word_at(set_word(m, a, v), a) == v,
{
    reveal(set_word);
    reveal(word_at);
}

/// A long that was written inside memory reads back.
pub broadcast proof fn lemma_long_of_set_long(m: Seq<u8>, a: u32, v: u32)
    requires
        a + 4 <= m.len() <= 0x1_0000_0000,
    ensures
        #[trigger] long_at(set_long(m, a, v), a) == v,
{
    reveal(set_long);
    reveal(long_at);
    reveal(set_word);
    reveal(word_at);
}

/// Writing a word leaves the bytes elsewhere.
pub broadcast proof fn lemma_byte_of_set_word(m: Seq<u8>, a: u32, v: u16, b: u32)
    requires
        a + 2 <= 0x1_0000_0000,
        apart(a, 2, b, 1),
    ensures
        #[trigger] byte_at(set_word(m, a, v), b) == byte_at(m, b),
{
    reveal(set_word);
}

/// Writing a long leaves the bytes elsewhere.
pub broadcast proof fn lemma_byte_of_set_long(m: Seq<u8>, a: u32, v: u32, b: u32)
    requires
        a + 4 <= 0x1_0000_0000,
        apart(a, 4, b, 1),
    ensures
        #[trigger] byte_at(set_long(m, a, v), b) == byte_at(m, b),
{
    reveal(set_long);
    reveal(set_word);
}

/// Writing a byte leaves the bytes elsewhere.
pub broadcast proof fn lemma_byte_of_set_byte(m: Seq<u8>, a: u32, v: u8, b: u32)
    requires
        a != b,
    ensures
        #[trigger] byte_at(set_byte(m, a, v), b) == byte_at(m, b),
{
}

/// Filling leaves the bytes elsewhere.
pub broadcast proof fn lemma_byte_of_set_fill(m: Seq<u8>, a: u32, n: nat, v: u8, b: u32)
    requires
        apart(a, n as int, b, 1),
    ensures
        #[trigger] byte_at(set_fill(m, a, n, v), b) == byte_at(m, b),
{
    reveal(set_fill);
}

/// Laying down bytes leaves those elsewhere.
pub broadcast proof fn lemma_byte_of_set_bytes(m: Seq<u8>, a: u32, bytes: Seq<u8>, b: u32)
    requires
        apart(a, bytes.len() as int, b, 1),
    ensures
        #[trigger] byte_at(set_bytes(m, a, bytes), b) == byte_at(m, b),
{
    reveal(set_bytes);
}

/// Writing a word leaves the words elsewhere.
pub broadcast proof fn lemma_word_of_set_word_apart(m: Seq<u8>, a: u32, v: u16, b: u32)
    requires
        a + 2 <= 0x1_0000_0000,
        b + 2 <= 0x1_0000_0000,
        apart(a, 2, b, 2),
    ensures
        #[trigger] word_at(set_word(m, a, v), b) == word_at(m, b),
{
    reveal(set_word);
    reveal(word_at);
}

/// Writing a long leaves the words elsewhere.
pub broadcast proof fn lemma_word_of_set_long_apart(m: Seq<u8>, a: u32, v: u32, b: u32)
    requires
        a + 4 <= 0x1_0000_0000,
        b + 2 <= 0x1_0000_0000,
        apart(a, 4, b, 2),
    ensures
        #[trigger] word_at(set_long(m, a, v), b) == word_at(m, b),
{
    reveal(set_long);
    reveal(set_word);
    reveal(word_at);
}

/// Writing a word leaves the longs elsewhere.
pub broadcast proof fn lemma_long_of_set_word_apart(m: Seq<u8>, a: u32, v: u16, b: u32)
    requires
        a + 2 <= 0x1_0000_0000,
        b + 4 <= 0x1_0000_0000,
        apart(a, 2, b, 4),
    ensures
        #[trigger] long_at(set_word(m, a, v), b) == long_at(m, b),
{
    reveal(long_at);
    reveal(set_word);
    reveal(word_at);
}

/// Writing a long leaves the longs elsewhere.
pub broadcast proof fn lemma_long_of_set_long_apart(m: Seq<u8>, a: u32, v: u32, b: u32)
    requires
        a + 4 <= 0x1_0000_0000,
        b + 4 <= 0x1_0000_0000,
        apart(a, 4, b, 4),
    ensures
        #[trigger] long_at(set_long(m, a, v), b) == long_at(m, b),
{
    reveal(set_long);
    reveal(long_at);
    reveal(set_word);
    reveal(word_at);
}

/// Writing one byte leaves the longs elsewhere.
pub broadcast proof fn lemma_long_of_set_byte_apart(m: Seq<u8>, a: u32, v: u8, b: u32)
    requires
        b + 4 <= 0x1_0000_0000,
        apart(a, 1, b, 4),
    ensures
        #[trigger] long_at(set_byte(m, a, v), b) == long_at(m, b),
{
    reveal(long_at);
    reveal(word_at);
}

pub broadcast group group_memory_lengths {
    lemma_set_word_len,
    lemma_set_long_len,
    lemma_set_fill_len,
    lemma_set_bytes_len,
}

pub broadcast group group_memory_bytes {
    lemma_byte_of_set_byte,
    lemma_byte_of_set_word,
    lemma_byte_of_set_long,
    lemma_byte_of_set_fill,
    lemma_byte_of_set_bytes,
}

pub broadcast group group_memory_reads {
    lemma_word_of_set_word,
    lemma_long_of_set_long,
    lemma_word_of_set_word_apart,
    lemma_word_of_set_long_apart,
    lemma_long_of_set_word_apart,
    lemma_long_of_set_long_apart,
    lemma_long_of_set_byte_apart,
}

/// A record of the bytes that were overwritten since some moment, each with
/// the value that it had then.
pub struct WriteProbe {
    pub(crate) journal: Vec<(u32, u8)>,
    pub(crate) base: Ghost<Seq<u8>>,
}

impl WriteProbe {
    /// Whether `a` has an entry among the first `n` entries.
    pub open spec fn records(journal: Seq<(u32, u8)>, a: u32) -> bool {
        exists|i: int| 0 <= i < journal.len() && (#[trigger] journal[i]).0 == a
    }

    /// The entries hold what memory held at the start, and only the bytes with
    /// an entry may have changed since.
    pub closed spec fn follows(&self, m: Seq<u8>) -> bool {
        &&& self.base@.len() == m.len() <= 0x1_0000_0000
        &&& forall|i: int|
            0 <= i < self.journal@.len() ==> {
                &&& (#[trigger] self.journal@[i]).0 < m.len()
                &&& self.journal@[i].1 == self.base@[self.journal@[i].0 as int]
            }
        &&& forall|a: u32|
            a < m.len() && !Self::records(self.journal@, a) ==> #[trigger] m[a as int] == self.base@[a as int]
    }

    /// Memory as it was when the record was opened.
    pub closed spec fn start(&self) -> Seq<u8> {
        self.base@
    }
}

/// Guest memory and its heap as mathematical values.
pub struct BusView {
    /// The bytes of RAM.
    pub mem: Seq<u8>,
    /// Where the next heap block will be.
    pub heap: u32,
    /// Where the next stub will be.
    pub stubs: u32,
    /// The live heap blocks, oldest first.
    pub live: Seq<(u32, u32)>,
    /// Memory as it was when the open write record began.
    pub probe: Option<Seq<u8>>,
}

impl BusView {
    pub open spec fn get_byte(self, a: u32) -> u8 {
        byte_at(self.mem, a)
    }

    pub open spec fn get_word(self, a: u32) -> u16 {
        word_at(self.mem, a)
    }

    pub open spec fn get_long(self, a: u32) -> u32 {
        long_at(self.mem, a)
    }

    pub open spec fn byte(self, a: u32, v: u8) -> BusView {
        BusView { mem: set_byte(self.mem, a, v), ..self }
    }

    pub open spec fn word(self, a: u32, v: u16) -> BusView {
        BusView { mem: set_word(self.mem, a, v), ..self }
    }

    pub open spec fn long(self, a: u32, v: u32) -> BusView {
        BusView { mem: set_long(self.mem, a, v), ..self }
    }

    pub open spec fn filled(self, a: u32, n: u32, v: u8) -> BusView {
        BusView { mem: set_fill(self.mem, a, n as nat, v), ..self }
    }

    pub open spec fn bytes(self, a: u32, bytes: Seq<u8>) -> BusView {
        BusView { mem: set_bytes(self.mem, a, bytes), ..self }
    }

    /// The size of RAM, as far as a long can hold it.
    pub open spec fn ram_size(self) -> u32 {
        if self.mem.len() <= u32::MAX {
            self.mem.len() as u32
        } else {
            u32::MAX
        }
    }

    /// Whether the heap has room for `size` more bytes.
    pub open spec fn has_room(self, size: u32) -> bool {
        self.heap + rounded(size) <= self.mem.len() && self.heap + rounded(size) <= u32::MAX
    }

    /// The next heap block of `size` bytes, and the heap after it is taken.
    pub open spec fn allocated(self, size: u32) -> (u32, BusView) {
        if self.has_room(size) {
            (self.heap, BusView { heap: (self.heap + rounded(size)) as u32, live: self.live.push((self.heap, size)), ..self })
        } else {
            (0, self)
        }
    }

    /// The heap without the block at `ptr`, the latest where there are several.
    pub open spec fn freed(self, ptr: u32) -> BusView {
        match last_block(self.live, ptr, self.live.len()) {
            Some(i) => BusView { live: self.live.remove(i), ..self },
            None => self,
        }
    }

    /// The next stub of `size` bytes, and the arena after it is taken.
    pub open spec fn stub_allocated(self, size: u32) -> (u32, BusView) {
        if self.stubs + rounded(size) <= SYNTHETIC_LIMIT {
            (self.stubs, BusView { stubs: (self.stubs + rounded(size)) as u32, ..self })
        } else {
            (0, self)
        }
    }
}

/// Guest memory, its heap, and at most one open write record.
pub struct MacMemoryBus {
    pub(crate) ram: Vec<u8>,
    pub(crate) heap_next: u32,
    pub(crate) synthetic_next: u32,
    pub(crate) blocks: Vec<(u32, u32)>,
    pub(crate) probe: Option<WriteProbe>,
}

/// The position of the latest block at `ptr`, among the first `n`.
pub open spec fn last_block(blocks: Seq<(u32, u32)>, ptr: u32, n: nat) -> Option<int>
    decreases n,
{
    if n == 0 {
        None
    } else if blocks[n - 1].0 == ptr {
        Some(n - 1)
    } else {
        last_block(blocks, ptr, (n - 1) as nat)
    }
}

/// The size of the block at `ptr`, if there is one.
pub open spec fn block_size(blocks: Seq<(u32, u32)>, ptr: u32) -> Option<u32>
    decreases blocks.len(),
{
    if blocks.len() == 0 {
        None
    } else if blocks.last().0 == ptr {
        Some(blocks.last().1)
    } else {
        block_size(blocks.drop_last(), ptr)
    }
}

/// `size` rounded up to a multiple of four, at most the largest address.
pub open spec fn rounded(size: u32) -> int {
    if size + 3 > u32::MAX { 0xffff_fffc } else { (size + 3) / 4 * 4 }
}

impl MacMemoryBus {
    /// The bytes of RAM.
    pub closed spec fn mem(&self) -> Seq<u8> {
        self.ram@
    }

    /// Where the next heap block will be.
    pub closed spec fn heap(&self) -> u32 {
        self.heap_next
    }

    /// Where the next stub will be.
    pub closed spec fn stubs(&self) -> u32 {
        self.synthetic_next
    }

    /// The live heap blocks, oldest first.
    pub closed spec fn live(&self) -> Seq<(u32, u32)> {
        self.blocks@
    }

    /// Whether a write record is open.
    pub closed spec fn probing(&self) -> bool {
        self.probe is Some
    }

    /// Memory as it was when the open write record began.
    pub closed spec fn probe_start(&self) -> Seq<u8> {
        self.probe->0.start()
    }

    /// The open write record accounts for every change since it began.
    pub closed spec fn probe_wf(&self) -> bool {
        self.probe is Some ==> self.probe->0.follows(self.ram@)
    }

    /// Memory and heap as mathematical values.
    pub open spec fn view(&self) -> BusView {
        BusView {
            mem: self.mem(),
            heap: self.heap(),
            stubs: self.stubs(),
            live: self.live(),
            probe: if self.probing() { Some(self.probe_start()) } else { None },
        }
    }

    /// The size of RAM fits the address range, and the write record is accurate.
    pub open spec fn wf(&self) -> bool {
        self.mem().len() <= 0x1_0000_0000 && self.probe_wf()
    }

    /// The heap is the same in both.
    pub open spec fn same_heap(&self, old: &Self) -> bool {
        &&& self.heap() == old.heap()
        &&& self.stubs() == old.stubs()
        &&& self.live() == old.live()
    }

    /// The write record of `old` is still open, and still accurate if it was.
    pub open spec fn same_probe(&self, old: &Self) -> bool {
        &&& self.probing() == old.probing()
        &&& old.probing() ==> self.probe_start() == old.probe_start()
        &&& old.probe_wf() ==> self.probe_wf()
    }

    /// What writing to memory does: memory becomes `m`, and nothing else.
    pub open spec fn wrote(&self, old: &Self, m: Seq<u8>) -> bool {
        &&& self.mem() == m
        &&& self.same_heap(old)
        &&& self.same_probe(old)
    }

    /// RAM of `size` zero bytes with an empty heap.
    pub fn new(size: usize) -> (r: Self)
        requires
            size <= 0x1_0000_0000,
        ensures
            r@ == fresh_bus(size as nat),
            r.wf(),
    {
        let ram: Vec<u8> = vec![0u8; size];
        assert(ram@ =~= Seq::new(size as nat, |i: int| 0u8));
        MacMemoryBus { ram, heap_next: HEAP_BASE, synthetic_next: SYNTHETIC_BASE, blocks: Vec::new(), probe: None }
    }

    /// How many bytes of RAM there are.
    pub fn ram_bytes(&self) -> (r: u64)
        ensures
            r == self@.mem.len(),
    {
        self.ram.len() as u64
    }

    /// The number of bytes of RAM, as far as an address can tell.
    pub fn ram_size(&self) -> (r: u32)
        ensures
            r == self@.ram_size(),
    {
        let n: usize = self.ram.len();
        if n as u64 > u32::MAX as u64 { u32::MAX } else { n as u32 }
    }

    /// How many bytes of RAM an address can reach.
    fn addressable(&self) -> (r: u64)
        ensures
            r == if self.mem().len() > 0x1_0000_0000 { 0x1_0000_0000 } else { self.mem().len() as int },
    {
        let n: u64 = self.ram.len() as u64;
        if n > 0x1_0000_0000 { 0x1_0000_0000 } else { n }
    }

    pub fn read_byte(&self, a: u32) -> (r: u8)
        ensures
            r == byte_at(self.mem(), a),
    {
        if (a as u64) < self.ram.len() as u64 { self.ram[a as usize] } else { 0 }
    }

    pub fn read_word(&self, a: u32) -> (r: u16)
        ensures
            r == word_at(self.mem(), a),
    {
        reveal(word_at);
        let hi: u8 = self.read_byte(a);
        let lo: u8 = self.read_byte(a.wrapping_add(1));
        hi as u16 * 256 + lo as u16
    }

    pub fn read_long(&self, a: u32) -> (r: u32)
        ensures
            r == long_at(self.mem(), a),
    {
        reveal(long_at);
        let hi: u16 = self.read_word(a);
        let lo: u16 = self.read_word(a.wrapping_add(2));
        hi as u32 * 0x1_0000 + lo as u32
    }

    /// Whether the open record has an entry for `a`.
    fn is_recorded(journal: &Vec<(u32, u8)>, a: u32) -> (r: bool)
        ensures
            r == WriteProbe::records(journal@, a),
    {
        let mut i: usize = 0;
        while i < journal.len()
            invariant
                i <= journal.len(),
                forall|k: int| 0 <= k < i ==> (#[trigger] journal@[k]).0 != a,
            decreases journal.len() - i,
        {
            if journal[i].0 == a {
                assert(journal@[i as int].0 == a);
                return true;
            }
            i += 1;
        }
        false
    }

    /// Enters the present byte at `a` in the open record, unless it has one.
    fn record(&mut self, a: u32)
        requires
            a < old(self).mem().len(),
        ensures
            final(self).mem() == old(self).mem(),
            final(self).same_heap(old(self)),
            final(self).same_probe(old(self)),
            old(self).probing() ==> WriteProbe::records(final(self).probe->0.journal@, a),
    {
        if let Some(probe) = &mut self.probe {
            if !Self::is_recorded(&probe.journal, a) {
                let ghost before = probe.journal@;
                let b: u8 = self.ram[a as usize];
                probe.journal.push((a, b));
                assert(probe.journal@[before.len() as int].0 == a);
                assert forall|x: u32| WriteProbe::records(before, x) implies WriteProbe::records(
                    probe.journal@,
                    x,
                ) by {
                    let i = choose|i: int| 0 <= i < before.len() && (#[trigger] before[i]).0 == x;
                    assert(probe.journal@[i].0 == x);
                }
            }
        }
    }

    pub fn write_byte(&mut self, a: u32, v: u8)
        ensures
            final(self).wrote(old(self), set_byte(old(self).mem(), a, v)),
    {
        if (a as u64) < self.ram.len() as u64 {
            self.record(a);
            let ghost before = self.ram@;
            self.ram.set(a as usize, v);
            assert(self.ram@ == before.update(a as int, v));
        }
    }

    pub fn write_word(&mut self, a: u32, v: u16)
        ensures
            final(self).wrote(old(self), set_word(old(self).mem(), a, v)),
    {
        reveal(set_word);
        self.write_byte(a, (v / 256) as u8);
        self.write_byte(a.wrapping_add(1), (v % 256) as u8);
    }

    pub fn write_long(&mut self, a: u32, v: u32)
        ensures
            final(self).wrote(old(self), set_long(old(self).mem(), a, v)),
    {
        reveal(set_long);
        self.write_word(a, (v / 0x1_0000) as u16);
        self.write_word(a.wrapping_add(2), (v % 0x1_0000) as u16);
    }

    /// Sets the `n` bytes from `a` on to `v`.
    pub fn fill_bytes(&mut self, a: u32, n: u32, v: u8)
        ensures
            final(self).wrote(old(self), set_fill(old(self).mem(), a, n as nat, v)),
    {
        reveal(set_fill);
        let size: u64 = self.addressable();
        let end: u64 = if a as u64 + n as u64 > size { size } else { a as u64 + n as u64 };
        let mut i: u64 = a as u64;
        let ghost m0 = self.mem();
        while i < end
            invariant
                a <= i,
                i <= end || end < a,
                end <= size,
                size == if m0.len() > 0x1_0000_0000 { 0x1_0000_0000 } else { m0.len() as int },
                end <= a + n,
                a + n > size ==> end == size,
                a + n <= size ==> end == a + n,
                self.same_heap(old(self)),
                self.same_probe(old(self)),
                self.mem().len() == m0.len(),
                forall|k: int| 0 <= k < m0.len() ==> #[trigger] self.mem()[k] == (if a <= k < i { v } else { m0[k] }),
            decreases end - i,
        {
            self.write_byte(i as u32, v);
            i += 1;
        }
        assert(self.mem() =~= set_fill(m0, a, n as nat, v));
    }

    /// Lays `bytes` down from `a` on.
    pub fn write_bytes(&mut self, a: u32, bytes: &[u8])
        ensures
            final(self).wrote(old(self), set_bytes(old(self).mem(), a, bytes@)),
    {
        reveal(set_bytes);
        let mut i: usize = 0;
        let ghost m0 = self.mem();
        let size: u64 = self.addressable();
        while i < bytes.len() && (a as u64) < size && (i as u64) < size - a as u64
            invariant
                i <= bytes.len(),
                size == if m0.len() > 0x1_0000_0000 { 0x1_0000_0000 } else { m0.len() as int },
                a + i <= size || i == 0,
                self.same_heap(old(self)),
                self.same_probe(old(self)),
                self.mem().len() == m0.len(),
                forall|k: int|
                    0 <= k < m0.len() ==> #[trigger] self.mem()[k] == (if a <= k < a + i { bytes@[k - a] } else { m0[k] }),
            decreases bytes.len() - i,
        {
            self.write_byte((a as u64 + i as u64) as u32, bytes[i]);
            i += 1;
        }
        assert(self.mem() =~= set_bytes(m0, a, bytes@));
    }

    /// The `n` bytes from `a` on.
    pub fn read_bytes(&self, a: u32, n: usize) -> (r: Vec<u8>)
        requires
            n <= u32::MAX,
        ensures
            r@ == bytes_at(self.mem(), a, n as nat),
    {
        let mut out: Vec<u8> = Vec::new();
        let mut i: usize = 0;
        while i < n
            invariant
                i <= n,
                n <= u32::MAX,
                out@ =~= bytes_at(self.mem(), a, i as nat),
            decreases n - i,
        {
            out.push(self.read_byte(a.wrapping_add(i as u32)));
            i += 1;
        }
        out
    }

    /// Where the next heap block will be.
    pub fn heap_bump_ptr(&self) -> (r: u32)
        ensures
            r == self.heap(),
    {
        self.heap_next
    }

    /// Keeps the heap from handing out memory below `limit`.
    pub fn reserve_heap_until(&mut self, limit: u32)
        ensures
            final(self)@ == (BusView { heap: if limit > old(self)@.heap { limit } else { old(self)@.heap }, ..old(self)@ }),
            old(self).probe_wf() ==> final(self).probe_wf(),
    {
        if limit > self.heap_next {
            self.heap_next = limit;
        }
    }

    /// A heap block of `size` bytes, or 0 when no room is left.
    pub fn allocate(&mut self, size: u32) -> (r: u32)
        ensures
            (r, final(self)@) == old(self)@.allocated(size),
            old(self).probe_wf() ==> final(self).probe_wf(),
    {
        let bytes: u32 = round_up(size);
        let end: u64 = self.heap_next as u64 + bytes as u64;
        if end > self.ram.len() as u64 || end > u32::MAX as u64 {
            return 0;
        }
        let ptr: u32 = self.heap_next;
        self.blocks.push((ptr, size));
        self.heap_next = end as u32;
        ptr
    }

    /// A stub of `size` bytes outside the guest heap, or 0 when no room is left.
    pub fn alloc_synthetic(&mut self, size: u32) -> (r: u32)
        ensures
            (r, final(self)@) == old(self)@.stub_allocated(size),
            old(self).probe_wf() ==> final(self).probe_wf(),
    {
        let bytes: u32 = round_up(size);
        let end: u64 = self.synthetic_next as u64 + bytes as u64;
        if end > SYNTHETIC_LIMIT as u64 {
            return 0;
        }
        let ptr: u32 = self.synthetic_next;
        self.synthetic_next = end as u32;
        ptr
    }

    /// The size of the heap block at `ptr`, if there is one.
    pub fn get_alloc_size(&self, ptr: u32) -> (r: Option<u32>)
        ensures
            r == block_size(self.live(), ptr),
    {
        let mut i: usize = self.blocks.len();
        assert(self.blocks@.take(i as int) =~= self.blocks@);
        while i > 0
            invariant
                i <= self.blocks.len(),
                block_size(self.blocks@, ptr) == block_size(self.blocks@.take(i as int), ptr),
            decreases i,
        {
            let ghost upto = self.blocks@.take(i as int);
            assert(upto.drop_last() =~= self.blocks@.take(i - 1));
            if self.blocks[i - 1].0 == ptr {
                return Some(self.blocks[i - 1].1);
            }
            i -= 1;
        }
        None
    }

    /// Gives up the newest heap block at `ptr`; its memory is not handed out
    /// again.
    pub fn free(&mut self, ptr: u32)
        ensures
            final(self)@ == old(self)@.freed(ptr),
            old(self).probe_wf() ==> final(self).probe_wf(),
    {
        let mut i: usize = self.blocks.len();
        while i > 0
            invariant
                i <= self.blocks.len(),
                *self == *old(self),
                last_block(self.blocks@, ptr, self.blocks@.len()) == last_block(self.blocks@, ptr, i as nat),
            decreases i,
        {
            if self.blocks[i - 1].0 == ptr {
                self.blocks.remove(i - 1);
                return ;
            }
            i -= 1;
        }
    }

    /// Opens a write record at the present state of memory.
    pub fn begin_write_probe(&mut self)
        requires
            old(self).mem().len() <= 0x1_0000_0000,
        ensures
            final(self).mem() == old(self).mem(),
            final(self).same_heap(old(self)),
            final(self).probing(),
            final(self).probe_wf(),
            final(self).probe_start() == old(self).mem(),
            final(self)@ == (BusView { probe: Some(old(self)@.mem), ..old(self)@ }),
    {
        self.probe = Some(WriteProbe { journal: Vec::new(), base: Ghost(self.ram@) });
    }

    /// Drops the write record.
    pub fn cancel_write_probe(&mut self)
        ensures
            final(self).mem() == old(self).mem(),
            final(self).same_heap(old(self)),
            !final(self).probing(),
            final(self).probe_wf(),
            final(self)@ == (BusView { probe: None, ..old(self)@ }),
    {
        self.probe = None;
    }

    /// Whether a write record is open.
    pub fn is_probing(&self) -> (r: bool)
        ensures
            r == self.probing(),
    {
        self.probe.is_some()
    }

    /// Closes the write record and tells whether every byte holds again what it
    /// held when the record began; without a record the answer is no.
    pub fn finish_write_probe_unchanged(&mut self) -> (r: bool)
        requires
            old(self).probe_wf(),
        ensures
            final(self).mem() == old(self).mem(),
            final(self).same_heap(old(self)),
            !final(self).probing(),
            final(self).probe_wf(),
            r == (old(self).probing() && old(self).probe_start() == old(self).mem()),
            final(self)@ == (BusView { probe: None, ..old(self)@ }),
    {
        let mut same: bool = false;
        if let Some(probe) = &self.probe {
            same = true;
            let mut i: usize = 0;
            let ghost m = self.ram@;
            while i < probe.journal.len()
                invariant
                    i <= probe.journal.len(),
                    m == self.ram@,
                    probe.follows(m),
                    same == (forall|k: int|
                        0 <= k < i ==> m[(#[trigger] probe.journal@[k]).0 as int] == probe.journal@[k].1),
                decreases probe.journal.len() - i,
            {
                let entry: (u32, u8) = probe.journal[i];
                assert(entry == probe.journal@[i as int]);
                if self.ram[entry.0 as usize] != entry.1 {
                    same = false;
                }
                i += 1;
            }
            if same {
                assert forall|k: int| 0 <= k < m.len() implies m[k] == probe.base@[k] by {
                    let a = k as u32;
                    assert(m[a as int] == m[k]);
                    if WriteProbe::records(probe.journal@, a) {
                        let j = choose|j: int| 0 <= j < probe.journal@.len() && (#[trigger] probe.journal@[j]).0 == a;
                    }
                }
                assert(m =~= probe.base@);
            }
        }
        self.probe = None;
        same
    }
}

/// RAM of `size` zero bytes with an empty heap.
pub open spec fn fresh_bus(size: nat) -> BusView {
    BusView {
        mem: Seq::new(size, |i: int| 0u8),
        heap: HEAP_BASE,
        stubs: SYNTHETIC_BASE,
        live: Seq::empty(),
        probe: None,
    }
}

/// `size` rounded up to a multiple of four.
pub fn round_up(size: u32) -> (r: u32)
    ensures
        r == rounded(size),
{
    if size > 0xffff_fffc { 0xffff_fffc } else { (size + 3) / 4 * 4 }
}

impl m68k::AddressBus for MacMemoryBus {
    fn read_byte(&mut self, address: u32) -> u8 {
        MacMemoryBus::read_byte(self, address)
    }

    fn read_word(&mut self, address: u32) -> u16 {
        MacMemoryBus::read_word(self, address)
    }

    fn read_long(&mut self, address: u32) -> u32 {
        MacMemoryBus::read_long(self, address)
    }

    fn write_byte(&mut self, address: u32, value: u8) {
        MacMemoryBus::write_byte(self, address, value)
    }

    fn write_word(&mut self, address: u32, value: u16) {
        MacMemoryBus::write_word(self, address, value)
    }

    fn write_long(&mut self, address: u32, value: u32) {
        MacMemoryBus::write_long(self, address, value)
    }
}

} // verus!

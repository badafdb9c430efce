use vstd::prelude::*;

use crate::memory::{block_size, long_at, set_byte, set_bytes, set_fill, set_long, set_word, word_at, BusView};
use crate::resource::{be16, be32};

verus! {

/// The number that a word stands for when its highest bit is the sign.
pub open spec fn signed(w: u16) -> int {
    if w >= 0x8000 {
        w - 0x1_0000
    } else {
        w as int
    }
}

/// Words are signed as the processor takes them.
pub proof fn lemma_signed(w: u16)
    ensures
        w as i16 == signed(w),
{
    assert(w < 0x8000 ==> w as i16 == w) by (bit_vector);
    assert(w >= 0x8000 ==> w as i16 == w - 0x1_0000) by (bit_vector);
}

/// A signed number of 16 bits, as a word and back.
pub proof fn lemma_signed_back(v: i16)
    ensures
        signed(v as u16) == v,
{
    assert(v >= 0 ==> v as u16 == v) by (bit_vector);
    assert(v < 0 ==> v as u16 == v + 0x1_0000) by (bit_vector);
}

/// A word has its high byte at the lower address.
pub proof fn lemma_word_is_big_endian(m: Seq<u8>, a: u32)
    requires
        a + 2 <= m.len() <= 0x1_0000_0000,
    ensures
        word_at(m, a) == m[a as int] * 0x100 + m[a + 1],
{
    reveal(word_at);
}

/// A long has its high byte at the lowest address.
pub proof fn lemma_long_is_big_endian(m: Seq<u8>, a: u32)
    requires
        a + 4 <= m.len() <= 0x1_0000_0000,
    ensures
        long_at(m, a) == m[a as int] * 0x100_0000 + m[a + 1] * 0x1_0000 + m[a + 2] * 0x100 + m[a + 3],
{
    reveal(long_at);
    reveal(word_at);
}

/// Words and longs of a file have their high byte first.
pub proof fn lemma_file_words_are_big_endian(s: Seq<u8>, i: int)
    ensures
        be16(s, i) == s[i] * 0x100 + s[i + 1],
        be32(s, i) == s[i] * 0x100_0000 + s[i + 1] * 0x1_0000 + s[i + 2] * 0x100 + s[i + 3],
{
}

/// Writing a word changes its two bytes and no others.
pub proof fn lemma_word_write(m: Seq<u8>, a: u32, v: u16, i: int)
    requires
        a + 2 <= m.len() <= 0x1_0000_0000,
        0 <= i < m.len(),
    ensures
        set_word(m, a, v).len() == m.len(),
        set_word(m, a, v)[a as int] * 0x100 + set_word(m, a, v)[a + 1] == v,
        i != a && i != a + 1 ==> set_word(m, a, v)[i] == m[i],
{
    reveal(set_word);
}

/// Writing a long changes its four bytes and no others.
pub proof fn lemma_long_write(m: Seq<u8>, a: u32, v: u32, i: int)
    requires
        a + 4 <= m.len() <= 0x1_0000_0000,
        0 <= i < m.len(),
    ensures
        ({
            let n = set_long(m, a, v);
            &&& n.len() == m.len()
            &&& n[a as int] * 0x100_0000 + n[a + 1] * 0x1_0000 + n[a + 2] * 0x100 + n[a + 3] == v
            &&& i < a || i >= a + 4 ==> n[i] == m[i]
        }),
{
    reveal(set_long);
    reveal(set_word);
}

/// Writing a byte changes that byte and no other; outside RAM it changes nothing.
pub proof fn lemma_byte_write(m: Seq<u8>, a: u32, v: u8, i: int)
    requires
        0 <= i < m.len(),
    ensures
        set_byte(m, a, v).len() == m.len(),
        set_byte(m, a, v)[i] == (if i == a { v } else { m[i] }),
{
}

/// Filling sets the bytes of a range to one value and changes no others.
pub proof fn lemma_fill_write(m: Seq<u8>, a: u32, n: nat, v: u8, i: int)
    requires
        m.len() <= 0x1_0000_0000,
        0 <= i < m.len(),
    ensures
        set_fill(m, a, n, v).len() == m.len(),
        set_fill(m, a, n, v)[i] == (if a <= i < a + n { v } else { m[i] }),
{
    reveal(set_fill);
}

/// Laying down bytes puts each in its place and changes no others.
pub proof fn lemma_bytes_write(m: Seq<u8>, a: u32, bytes: Seq<u8>, i: int)
    requires
        m.len() <= 0x1_0000_0000,
        0 <= i < m.len(),
    ensures
        set_bytes(m, a, bytes).len() == m.len(),
        set_bytes(m, a, bytes)[i] == (if a <= i < a + bytes.len() { bytes[i - a] } else { m[i] }),
{
    reveal(set_bytes);
}

/// A heap block lies in RAM and meets no block that is handed out after it; memory stays
/// as it is, and the heap knows the size. There is a block wherever one fits.
pub proof fn lemma_heap_blocks_are_apart(b: BusView, size: u32, more: u32)
    requires
        b.heap > 0,
        size <= u32::MAX - 3,
    ensures
        ({
            let (p, c) = b.allocated(size);
            let (q, d) = c.allocated(more);
            &&& c.mem == b.mem
            &&& c.stubs == b.stubs
            &&& c.heap >= b.heap
            &&& p != 0 ==> b.heap <= p && p + size <= b.mem.len() && p + size <= c.heap && block_size(c.live, p) == Some(
                size,
            )
            &&& p != 0 && q != 0 ==> p + size <= q
            &&& b.heap + size + 3 <= b.mem.len() && b.heap + size + 3 <= u32::MAX ==> p != 0
            &&& b.heap + size > b.mem.len() ==> p == 0
            &&& p == 0 ==> c == b
        }),
{
}

/// Heap blocks begin at multiples of four.
pub proof fn lemma_heap_blocks_are_aligned(b: BusView, size: u32)
    requires
        b.heap % 4 == 0,
    ensures
        b.allocated(size).0 % 4 == 0,
        b.allocated(size).1.heap % 4 == 0,
{
}

/// A stub lies in the arena for stubs, below the guest heap, and meets no stub that is
/// handed out after it; the heap is not touched.
pub proof fn lemma_stubs_are_apart(b: BusView, size: u32, more: u32)
    requires
        0x2000 <= b.stubs,
        size <= 0x8000,
    ensures
        ({
            let (p, c) = b.stub_allocated(size);
            let (q, d) = c.stub_allocated(more);
            &&& c.mem == b.mem
            &&& c.heap == b.heap
            &&& c.live == b.live
            &&& p != 0 ==> 0x2000 <= p && p + size <= 0x8000
            &&& p != 0 && q != 0 ==> p + size <= q
            &&& b.stubs + size + 3 <= 0x8000 ==> p != 0
        }),
{
}

} // verus!

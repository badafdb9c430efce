use vstd::prelude::*;
use vstd::string::*;

use crate::memory::BusView;
use crate::runner::FixtureRunner;
use crate::text::hex;

verus! {

/// Bytes of the shortest instruction.
pub const LEAST_INSTRUCTION: u32 = 2;
/// Bytes of the longest instruction.
pub const LARGEST_INSTRUCTION: u32 = 10;

/// What `m68k::dasm::disassemble` returns for an opcode word of the 68000: the
/// text of the instruction and its size in bytes.
pub uninterp spec fn m68000_text(pc: u32, opcode: u16) -> (Seq<char>, u32);

/// Calls `m68k::dasm::disassemble` for the 68000. Its result depends on its
/// arguments alone. A trap word comes back as data of two bytes.
#[verifier::external_body]
fn disassemble(pc: u32, opcode: u16) -> (r: (String, u32))
    ensures
        (r.0@, r.1) == m68000_text(pc, opcode),
        0xA000 <= opcode <= 0xAFFF ==> r.0@ == "DC.W $"@ + hex(opcode as nat, 4) && r.1 == 2,
{
    m68k::dasm::disassemble(pc, opcode, m68k::CpuType::M68000)
}

/// The size of an instruction within its bounds.
pub open spec fn bounded_size(size: u32) -> u32 {
    if size < LEAST_INSTRUCTION {
        LEAST_INSTRUCTION
    } else if size > LARGEST_INSTRUCTION {
        LARGEST_INSTRUCTION
    } else {
        size
    }
}

/// One line of a disassembly: where the instruction is, its text, and its size
/// within its bounds.
pub fn disassembly_line(pc: u32, text: String, size: u32) -> (r: (u32, String, u32))
    ensures
        r.0 == pc,
        r.1@ == text@,
        r.2 == bounded_size(size),
{
    let bounded: u32 = if size < LEAST_INSTRUCTION {
        LEAST_INSTRUCTION
    } else if size > LARGEST_INSTRUCTION {
        LARGEST_INSTRUCTION
    } else {
        size
    };
    (pc, text, bounded)
}

/// The instruction at `pc`: its text and its size. There is none behind the end
/// of RAM.
pub open spec fn instruction_at(b: BusView, pc: u32) -> (Seq<char>, u32) {
    if pc >= b.mem.len() {
        ("<unmapped>"@, 2)
    } else {
        m68000_text(pc, b.get_word(pc))
    }
}

/// The first `n` lines of a disassembly from `pc` on, and where the next one
/// begins.
pub open spec fn disassembly(b: BusView, pc: u32, n: nat) -> (Seq<(u32, Seq<char>, u32)>, u32)
    decreases n,
{
    if n == 0 {
        (Seq::empty(), pc)
    } else {
        let (lines, at) = disassembly(b, pc, (n - 1) as nat);
        let (text, size) = instruction_at(b, at);
        (lines.push((at, text, bounded_size(size))), at.wrapping_add(bounded_size(size)))
    }
}

/// The lines of a disassembly as mathematical values.
pub open spec fn lines_view(lines: Seq<(u32, String, u32)>) -> Seq<(u32, Seq<char>, u32)> {
    lines.map_values(|l: (u32, String, u32)| (l.0, l.1@, l.2))
}

impl FixtureRunner {
    /// The text of `count` instructions from `pc` on, each with its address and
    /// its size.
    pub fn disassemble_at(&self, pc: u32, count: usize) -> (r: Vec<(u32, String, u32)>)
        ensures
            lines_view(r@) == disassembly(self@.bus, pc, count as nat).0,
    {
        let mut out: Vec<(u32, String, u32)> = Vec::new();
        let mut at: u32 = pc;
        let mut i: usize = 0;
        assert(lines_view(out@) =~= Seq::<(u32, Seq<char>, u32)>::empty());
        while i < count
            invariant
                i <= count,
                (lines_view(out@), at) == disassembly(self@.bus, pc, i as nat),
            decreases count - i,
        {
            let (text, size): (String, u32) = if at as u64 >= self.bus.ram_bytes() {
                ("<unmapped>".to_owned(), 2)
            } else {
                disassemble(at, self.bus.read_word(at))
            };
            let line: (u32, String, u32) = disassembly_line(at, text, size);
            let ghost before = lines_view(out@);
            at = at.wrapping_add(line.2);
            out.push(line);
            assert(lines_view(out@) =~= before.push((line.0, line.1@, line.2)));
            i += 1;
        }
        out
    }
}

} // verus!

use m68k::{CpuCore, StepResult as CoreStep};
use vstd::prelude::*;

use crate::memory::{word_at, MacMemoryBus};

verus! {

#[verifier::external_type_specification]
#[verifier::external_body]
pub struct ExCpuCore(m68k::CpuCore);

/// A register of the processor.
#[derive(Clone, Copy, Debug, PartialEq, Eq, Structural)]
pub enum Register {
    D0,
    D1,
    D2,
    D3,
    D4,
    D5,
    D6,
    D7,
    A0,
    A1,
    A2,
    A3,
    A4,
    A5,
    A6,
    A7,
    PC,
}

impl Register {
    /// Position among the data and address registers; the program counter
    /// comes after them.
    pub open spec fn slot(self) -> int {
        match self {
            Register::D0 => 0,
            Register::D1 => 1,
            Register::D2 => 2,
            Register::D3 => 3,
            Register::D4 => 4,
            Register::D5 => 5,
            Register::D6 => 6,
            Register::D7 => 7,
            Register::A0 => 8,
            Register::A1 => 9,
            Register::A2 => 10,
            Register::A3 => 11,
            Register::A4 => 12,
            Register::A5 => 13,
            Register::A6 => 14,
            Register::A7 => 15,
            Register::PC => 16,
        }
    }

    fn index(self) -> (r: usize)
        ensures
            r == self.slot(),
    {
        match self {
            Register::D0 => 0,
            Register::D1 => 1,
            Register::D2 => 2,
            Register::D3 => 3,
            Register::D4 => 4,
            Register::D5 => 5,
            Register::D6 => 6,
            Register::D7 => 7,
            Register::A0 => 8,
            Register::A1 => 9,
            Register::A2 => 10,
            Register::A3 => 11,
            Register::A4 => 12,
            Register::A5 => 13,
            Register::A6 => 14,
            Register::A7 => 15,
            Register::PC => 16,
        }
    }

    /// The data register with number `n`.
    pub fn data(n: u16) -> (r: Self)
        requires
            n < 8,
        ensures
            r.slot() == n,
    {
        match n {
            0 => Register::D0,
            1 => Register::D1,
            2 => Register::D2,
            3 => Register::D3,
            4 => Register::D4,
            5 => Register::D5,
            6 => Register::D6,
            _ => Register::D7,
        }
    }

    /// The address register with number `n`.
    pub fn address(n: u16) -> (r: Self)
        requires
            n < 8,
        ensures
            r.slot() == 8 + n,
    {
        match n {
            0 => Register::A0,
            1 => Register::A1,
            2 => Register::A2,
            3 => Register::A3,
            4 => Register::A4,
            5 => Register::A5,
            6 => Register::A6,
            _ => Register::A7,
        }
    }
}

/// Why a run of instructions ended.
#[derive(Clone, Copy, Debug, PartialEq, Eq, Structural)]
pub enum CpuExit {
    BudgetExhausted,
    Stopped,
    WatchedPc(u32),
    Aline(u16),
    Fline(u16),
    Trap(u8),
    Breakpoint(u8),
    Illegal(u16),
}

/// What one instruction came to.
#[derive(Clone, Copy, Debug, PartialEq, Eq, Structural)]
pub enum StepResult {
    /// The next one can run.
    Done,
    /// No further one can.
    Stopped,
    /// It was a trap word.
    Aline(u16),
}

/// What one instruction came to, in the interpreter's terms.
#[derive(Clone, Copy, Debug, PartialEq, Eq, Structural)]
pub enum CpuStep {
    Done,
    Stopped,
    Aline(u16),
    Fline(u16),
    Trap(u8),
    Breakpoint(u8),
    Illegal(u16),
}

/// The registers that the runner reads and writes.
#[derive(Clone, Copy)]
pub struct CpuRegs {
    /// D0 to D7, then A0 to A7.
    pub dar: [u32; 16],
    pub pc: u32,
    /// Address of the last instruction.
    pub ppc: u32,
    /// The last opcode word.
    pub ir: u32,
    /// Nonzero after a STOP instruction.
    pub stopped: u32,
}

/// Registers that only the interpreter uses, as mathematical values.
pub struct CoreView {
    pub saved: Seq<u32>,
    pub stack_pointers: Seq<u32>,
    /// The control registers.
    pub words: Seq<u32>,
    /// The model, whether addresses are translated, the flags that make up the status
    /// register, and last the bits that it has.
    pub flags: Seq<u32>,
    pub fpr: Seq<u64>,
}

/// The registers as mathematical values.
pub struct CpuView {
    pub dar: Seq<u32>,
    pub pc: u32,
    pub ppc: u32,
    pub ir: u32,
    pub sr: u16,
    pub stopped: u32,
    pub core: CoreView,
}

impl CpuRegs {
    /// The registers, the status register being `sr` and those that only the
    /// interpreter uses being `core`.
    pub open spec fn with_core(self, sr: u16, core: CoreView) -> CpuView {
        CpuView {
            dar: self.dar@,
            pc: self.pc,
            ppc: self.ppc,
            ir: self.ir,
            sr,
            stopped: self.stopped,
            core,
        }
    }

    /// The registers in a list.
    pub open spec fn listed(self) -> Seq<u32> {
        self.dar@ + seq![self.pc, self.ppc, self.ir, self.stopped]
    }

    proof fn lemma_held(self, core: CpuCore)
        requires
            core_registers(core) == self.listed(),
        ensures
            held(core) == self.with_core(core_status(core), hidden(core)),
    {
        assert(self.listed().take(16) =~= self.dar@);
    }
}

impl CpuView {
    /// The value of register `r`.
    pub open spec fn reg(self, r: Register) -> u32 {
        if r is PC { self.pc } else { self.dar[r.slot()] }
    }

    /// The registers with `r` set to `v`.
    pub open spec fn with(self, r: Register, v: u32) -> CpuView {
        if r is PC { CpuView { pc: v, ..self } } else { CpuView { dar: self.dar.update(r.slot(), v), ..self } }
    }

    /// The stack pointer.
    pub open spec fn sp(self) -> u32 {
        self.dar[15]
    }

    /// What a program can see of the processor: not which model it is, nor how the flags
    /// are kept that make up the status register.
    pub open spec fn visible(self) -> CpuView {
        CpuView { core: CoreView { flags: Seq::empty(), ..self.core }, ..self }
    }

    /// The registers with the status register set to `sr`: it has only some bits, and
    /// the master bit only in supervisor mode.
    pub open spec fn with_status(self, sr: u16) -> CpuView {
        let s = status(sr, self.core.flags[STATUS_BITS as int]);
        CpuView {
            sr: s,
            core: CoreView {
                flags: self.core.flags.take(STATUS as int) + status_flags(s) + seq![self.core.flags[STATUS_BITS as int]],
                ..self.core
            },
            ..self
        }
    }

    /// The processor is a 68030.
    pub open spec fn is_68030(self) -> bool {
        forall|i: int| 0 <= i < TRANSLATING ==> self.core.flags[i] == #[trigger] model_words()[i]
    }

    /// Addresses are translated.
    pub open spec fn translating(self) -> bool {
        self.core.flags[TRANSLATING as int] != 0
    }
}

/// Registers that only the interpreter uses, as they stand at some moment, as far as a
/// program can see them.
pub struct CoreState {
    pub saved: [u32; 16],
    pub stack_pointers: [u32; 8],
    pub words: Vec<u32>,
    pub fpr: Vec<u64>,
}

impl CoreState {
    pub open spec fn view(&self) -> CoreView {
        CoreView {
            saved: self.saved@,
            stack_pointers: self.stack_pointers@,
            words: self.words@,
            flags: Seq::empty(),
            fpr: self.fpr@,
        }
    }
}

/// What a program can see of the processor at some moment.
pub struct CpuSnapshot {
    pub regs: CpuRegs,
    pub sr: u16,
    pub core: CoreState,
}

/// The two sequences of words are the same.
pub fn same_words(a: &[u32], b: &[u32]) -> (r: bool)
    ensures
        r == (a@ == b@),
{
    if a.len() != b.len() {
        return false;
    }
    let mut i: usize = 0;
    while i < a.len()
        invariant
            i <= a.len(),
            a.len() == b.len(),
            forall|k: int| 0 <= k < i ==> a@[k] == b@[k],
        decreases a.len() - i,
    {
        if a[i] != b[i] {
            return false;
        }
        i += 1;
    }
    assert(a@ =~= b@);
    true
}

impl CpuSnapshot {
    /// The registers that were recorded.
    pub open spec fn registers(&self) -> CpuView {
        self.regs.with_core(self.sr, self.core@)
    }

    /// Whether every register is the same in both.
    pub fn is_same(&self, other: &CpuSnapshot) -> (r: bool)
        ensures
            r == (self.registers() == other.registers()),
    {
        if self.core.fpr.len() != other.core.fpr.len() {
            return false;
        }
        let mut i: usize = 0;
        while i < self.core.fpr.len()
            invariant
                i <= self.core.fpr.len(),
                self.core.fpr.len() == other.core.fpr.len(),
                forall|k: int| 0 <= k < i ==> self.core.fpr@[k] == other.core.fpr@[k],
            decreases self.core.fpr.len() - i,
        {
            if self.core.fpr[i] != other.core.fpr[i] {
                return false;
            }
            i += 1;
        }
        assert(self.core.fpr@ =~= other.core.fpr@);
        same_words(self.regs.dar.as_slice(), other.regs.dar.as_slice()) && self.regs.pc == other.regs.pc && self.regs.ppc
            == other.regs.ppc && self.regs.ir == other.regs.ir && self.sr == other.sr && self.regs.stopped
            == other.regs.stopped && same_words(self.core.saved.as_slice(), other.core.saved.as_slice()) && same_words(
            self.core.stack_pointers.as_slice(),
            other.core.stack_pointers.as_slice(),
        ) && same_words(self.core.words.as_slice(), other.core.words.as_slice())
    }
}

/// The registers D0 to D7 and A0 to A7 of a `m68k::CpuCore`, then its program
/// counter, the address and the word of the last instruction, and whether it has
/// stopped.
pub uninterp spec fn core_registers(core: CpuCore) -> Seq<u32>;

/// What `get_sr` of a `m68k::CpuCore` returns.
pub uninterp spec fn core_status(core: CpuCore) -> u16;

/// The integer registers that a `m68k::CpuCore` has saved.
pub uninterp spec fn saved_registers(core: CpuCore) -> Seq<u32>;

/// The stack pointers that a `m68k::CpuCore` has put aside.
pub uninterp spec fn stack_pointers(core: CpuCore) -> Seq<u32>;

/// The control registers of a `m68k::CpuCore`.
pub uninterp spec fn control_words(core: CpuCore) -> Seq<u32>;

/// Which model a `m68k::CpuCore` is, whether it translates addresses, the flags that make
/// up its status register, and last the bits that its status register has.
pub uninterp spec fn core_flags(core: CpuCore) -> Seq<u32>;

/// The bits of the floating-point registers of a `m68k::CpuCore`.
pub uninterp spec fn float_bits(core: CpuCore) -> Seq<u64>;

/// How many control registers there are.
pub const CONTROL_REGISTERS: usize = 39;

/// Where it stands, among the flags, whether addresses are translated: behind the model.
pub const TRANSLATING: usize = 6;

/// Where the flags begin that make up the status register.
pub const STATUS: usize = 7;

/// Where the bits stand that the status register has.
pub const STATUS_BITS: usize = 17;

/// What says that the processor is a 68030: its number, its address lines, that it has
/// an address translation unit, and that it is neither an older model nor an imitation
/// of one.
pub open spec fn model_words() -> Seq<u32> {
    seq![6u32, 0xFFFF_FFFFu32, 0u32, 1u32, 0u32, 0u32]
}

/// The status register value that `sr` becomes on a processor whose status register has
/// the bits `mask`: other bits are clear, and so is the master bit outside supervisor
/// mode.
pub open spec fn status(sr: u16, mask: u32) -> u16 {
    let s = sr & (mask as u16) & 0xF71F;
    if s & 0x2000 == 0 { s & 0xEFFF } else { s }
}

/// The flags that make up the status register, when it was set to `s`: trace, trace on
/// change of flow, interrupt mask, extend, negative, not zero, overflow, carry,
/// supervisor and master.
pub open spec fn status_flags(s: u16) -> Seq<u32> {
    seq![
        (s & 0x8000) as u32,
        (s & 0x4000) as u32,
        (s & 0x0700) as u32,
        if s & 0x10 != 0 { 0x100u32 } else { 0 },
        if s & 0x08 != 0 { 0x80u32 } else { 0 },
        if s & 0x04 != 0 { 0u32 } else { 1 },
        if s & 0x02 != 0 { 0x80u32 } else { 0 },
        if s & 0x01 != 0 { 0x100u32 } else { 0 },
        if s & 0x2000 != 0 { 4u32 } else { 0 },
        if s & 0x1000 != 0 { 2u32 } else { 0 },
    ]
}

/// The registers of a `m68k::CpuCore` that only the interpreter uses.
pub open spec fn hidden(core: CpuCore) -> CoreView {
    CoreView {
        saved: saved_registers(core),
        stack_pointers: stack_pointers(core),
        words: control_words(core),
        flags: core_flags(core),
        fpr: float_bits(core),
    }
}

/// The registers of a `m68k::CpuCore`.
pub open spec fn held(core: CpuCore) -> CpuView {
    let w = core_registers(core);
    CpuView {
        dar: w.take(16),
        pc: w[16],
        ppc: w[17],
        ir: w[18],
        sr: core_status(core),
        stopped: w[19],
        core: hidden(core),
    }
}

/// What `m68k::CpuCore::step`, on a processor with the registers `c` and on memory `mem`,
/// may come to, with the registers and the memory that it then leaves.
pub uninterp spec fn step_outcomes(c: CpuView, mem: Seq<u8>) -> Set<(CpuStep, CpuView, Seq<u8>)>;

/// The address that `m68k::mmu::translate_address` finds for the address `at`, on a
/// processor with the registers `c` and on memory `mem`, to fetch an instruction or to
/// read data; none where the translation faults.
pub uninterp spec fn translated(c: CpuView, mem: Seq<u8>, at: u32, fetch: bool) -> Option<u32>;

/// The word that is fetched next. There is none at an odd address, nor where the
/// translation of the address faults.
pub open spec fn fetched(c: CpuView, mem: Seq<u8>) -> Option<u16> {
    if c.pc % 2 == 1 {
        None
    } else {
        match translated(c, mem, c.pc, true) {
            Some(at) => Some(word_at(mem, at)),
            None => None,
        }
    }
}

/// The next instruction is one of the floating-point unit, whose results the host's
/// arithmetic decides.
pub open spec fn floating(c: CpuView, mem: Seq<u8>) -> bool {
    fetched(c, mem) matches Some(op) && op / 512 == 0x79
}

/// The last address at which an instruction is run that steps over an operand of its
/// own without looking at the end of the address space.
pub const LAST_OPERAND: u32 = 0xFFFF_FFE0;

/// The largest RAM on which RTE is run on a frame to throw away: above it, such frames
/// could follow each other without end.
pub const LARGEST_FRAME_RAM: u32 = 0xFFFF_FFF0;

/// How many instructions in a row may fail to be fetched. The frames of so many
/// exceptions fill the address space.
pub const MOST_FAULTS: u32 = 0x2000_0000;

/// The opcode word of RTE.
pub const RTE: u16 = 0x4E73;

/// The interpreter has no instruction for opcode `op`, whose operand is one of the
/// three addressing modes that do not exist, and does not return from it.
pub open spec fn unknown_operand(op: u16, supervisor: bool) -> bool {
    let kind = op / 4096;
    let part = op / 256 % 16;
    let size = op / 64 % 4;
    op % 64 >= 61 && if kind == 0 {
        (part == 4 || part == 6 || part == 10 || part == 12) && size != 3
    } else if kind == 4 {
        op / 64 % 8 != 6 && op / 128 != 0x98 && (op / 64 == 0x11B ==> supervisor)
    } else if kind == 14 {
        size == 3 && part < 8
    } else {
        kind == 5 || kind == 8 || kind == 9 || kind == 11 || kind == 12 || kind == 13
    }
}

/// The instruction moves data to an immediate operand.
pub open spec fn moves_to_immediate(op: u16) -> bool {
    1 <= op / 4096 <= 3 && op / 64 % 64 == 0x27
}

/// The instruction steps over an operand of its own without looking at the end of the
/// address space: an immediate one, or that of MOVEC.
pub open spec fn steps_over_operand(op: u16) -> bool {
    op % 64 == 60 || op == 0x4E7A || op == 0x4E7B || moves_to_immediate(op)
}

/// The operand of the instruction at the program counter ends before the address space
/// does, and where addresses are translated, no fault can come before it is reached.
pub open spec fn reaches_operand(c: CpuView, mem: Seq<u8>, op: u16) -> bool {
    &&& c.pc <= LAST_OPERAND
    &&& c.translating() ==> !moves_to_immediate(op) && translated(c, mem, c.pc.wrapping_add(2), true) is Some
}

/// RTE finds a frame that is not one to throw away.
pub open spec fn returns_at_once(c: CpuView, mem: Seq<u8>) -> bool {
    translated(c, mem, c.sp().wrapping_add(6), false) matches Some(at) ==> word_at(mem, at) / 4096 != 1
}

/// The interpreter can run the next instruction, or raise the exception that fetching it
/// leads to: the word is one that it returns from, and the instruction does not reach the
/// end of the address space.
pub open spec fn steppable(c: CpuView, mem: Seq<u8>) -> bool {
    &&& c.is_68030()
    &&& fetched(c, mem) matches Some(op) ==> {
        &&& !unknown_operand(op, c.sr & 0x2000 != 0)
        &&& steps_over_operand(op) ==> reaches_operand(c, mem, op)
        &&& op == RTE ==> returns_at_once(c, mem) || !c.translating() && mem.len() <= LARGEST_FRAME_RAM
    }
}

/// The interpreter runs an instruction, on a processor with the registers `c` and on
/// memory `mem`, that comes to `end` and leaves the registers `after` and memory
/// `mem_after`. But for the floating-point unit it can come to nothing else.
pub open spec fn step_gives(c: CpuView, mem: Seq<u8>, end: CpuStep, after: CpuView, mem_after: Seq<u8>) -> bool {
    &&& step_outcomes(c, mem).contains((end, after, mem_after))
    &&& !floating(c, mem) ==> step_outcomes(c, mem) == set![(end, after, mem_after)]
}

/// One instruction, on a processor with the registers `c` and on memory `mem`, may
/// come to `end` and leave the registers `after` and memory `mem_after`. One that the
/// interpreter cannot run is illegal.
pub open spec fn instruction_may_end(c: CpuView, mem: Seq<u8>, end: CpuStep, after: CpuView, mem_after: Seq<u8>) -> bool {
    if steppable(c, mem) {
        step_gives(c, mem, end, after, mem_after)
    } else {
        let op = match fetched(c, mem) {
            Some(w) => w,
            None => 0,
        };
        &&& end == CpuStep::Illegal(op)
        &&& after == (CpuView { ppc: c.pc, ir: op as u32, pc: c.pc.wrapping_add(2), ..c })
        &&& mem_after == mem
    }
}

/// A moment within a run of instructions: the registers, memory, how many instructions
/// have run, and how many could not be fetched since the last that did.
pub struct CpuPoint {
    pub c: CpuView,
    pub mem: Seq<u8>,
    pub n: int,
    pub faults: int,
}

impl CpuPoint {
    /// A run may go on from here to `q`. Where nothing can be fetched there is no
    /// instruction: an exception is raised, whose handler comes next.
    pub open spec fn runs_on(self, q: CpuPoint, max: u32, watch: Seq<u32>) -> bool {
        &&& self.n < max
        &&& instruction_may_end(self.c, self.mem, CpuStep::Done, q.c, q.mem)
        &&& q.c.stopped == 0
        &&& if fetched(self.c, self.mem) is None {
            q.n == self.n && q.faults == self.faults + 1 && q.faults < MOST_FAULTS
        } else {
            q.n == self.n + 1 && q.faults == 0 && !watch.contains(q.c.pc)
        }
    }

    /// A run ends with `exit` when an instruction from here comes to `end` and leaves
    /// the machine as `q`. Addresses are looked at behind an instruction. Handlers that
    /// cannot be fetched themselves, one after the other without end, are illegal.
    pub open spec fn ends_run(self, q: CpuPoint, watch: Seq<u32>, end: CpuStep, exit: CpuExit) -> bool {
        if end is Done {
            let faulted = fetched(self.c, self.mem) is None;
            &&& q.n == if faulted { self.n } else { self.n + 1 }
            &&& if q.c.stopped != 0 {
                exit is Stopped
            } else if faulted {
                self.faults + 1 >= MOST_FAULTS && exit == CpuExit::Illegal(word_at(q.mem, q.c.pc))
            } else {
                watch.contains(q.c.pc) && exit == CpuExit::WatchedPc(q.c.pc)
            }
        } else {
            q.n == self.n && exit == end.exit()
        }
    }

    /// A run may end from here with `exit` and leave the machine as `q`.
    pub open spec fn runs_out(self, q: CpuPoint, max: u32, watch: Seq<u32>, exit: CpuExit) -> bool {
        if self.n >= max {
            q.c == self.c && q.mem == self.mem && q.n == self.n && exit is BudgetExhausted
        } else {
            exists|end: CpuStep|
                instruction_may_end(self.c, self.mem, end, q.c, q.mem) && #[trigger] self.ends_run(q, watch, end, exit)
        }
    }

    /// The moments that a run goes through.
    pub open spec fn runs(path: Seq<CpuPoint>, max: u32, watch: Seq<u32>) -> bool {
        forall|i: int| 0 <= i < path.len() - 1 ==> (#[trigger] path[i]).runs_on(path[i + 1], max, watch)
    }
}

/// A run of instructions, on a processor with the registers `c` and on memory `mem`,
/// may run `n` instructions, at most `max`, end with `exit`, and leave the registers
/// `after` and memory `mem_after`. A stopped processor runs none.
pub open spec fn batch_may_end(
    c: CpuView,
    mem: Seq<u8>,
    max: u32,
    watch: Seq<u32>,
    n: u32,
    exit: CpuExit,
    after: CpuView,
    mem_after: Seq<u8>,
) -> bool {
    if c.stopped != 0 {
        n == 0 && exit is Stopped && after == c && mem_after == mem
    } else {
        exists|path: Seq<CpuPoint>|
            {
                &&& #[trigger] CpuPoint::runs(path, max, watch)
                &&& path.len() >= 1
                &&& path[0] == (CpuPoint { c, mem, n: 0, faults: 0 })
                &&& path.last().runs_out(CpuPoint { c: after, mem: mem_after, n: n as int, faults: 0 }, max, watch, exit)
            }
    }
}

/// Makes a processor with `m68k::CpuCore::new` and gives it the instruction set
/// of the 68030 with `set_cpu_type`. The registers that only the interpreter uses
/// are zero, the model and the bits of the status register are those of the 68030, and
/// the status register says supervisor mode with interrupts masked.
#[verifier::external_body]
fn new_core() -> (r: CpuCore)
    ensures
        saved_registers(r) == Seq::new(16, |i: int| 0u32),
        stack_pointers(r) == Seq::new(8, |i: int| 0u32),
        control_words(r) == Seq::new(CONTROL_REGISTERS as nat, |i: int| 0u32),
        core_flags(r) == fresh_flags(),
        core_status(r) == 0x2700,
        float_bits(r) == Seq::new(8, |i: int| 0u64),
{
    let mut core = CpuCore::new();
    core.set_cpu_type(m68k::CpuType::M68030);
    core
}

/// Puts the registers in place of those of a `m68k::CpuCore` before the interpreter
/// runs.
#[verifier::external_body]
fn load_core(core: &mut CpuCore, regs: &CpuRegs)
    ensures
        held(*final(core)) == regs.with_core(core_status(*old(core)), hidden(*old(core))),
{
    core.dar = regs.dar;
    core.pc = regs.pc;
    core.ppc = regs.ppc;
    core.ir = regs.ir;
    core.stopped = regs.stopped;
}

/// Sets the status register with `m68k::CpuCore::set_sr_noint_nosp`: it gets the bits of
/// `sr` that the status register has, its flags get one value each for set and clear, and
/// the other registers stay.
#[verifier::external_body]
fn set_core_status(core: &mut CpuCore, sr: u16)
    ensures
        held(*final(core)) == held(*old(core)).with_status(sr),
        core_registers(*final(core)) == core_registers(*old(core)),
{
    core.set_sr_noint_nosp(sr);
}

/// Reads the status register with `m68k::CpuCore::get_sr`.
#[verifier::external_body]
fn read_core_status(core: &CpuCore) -> (r: u16)
    ensures
        r == core_status(*core),
{
    core.get_sr()
}

/// Translates an address with `m68k::mmu::translate_address`, as for a read by the
/// processor in its present mode. Neither the processor nor memory changes. Where
/// addresses are not translated, the address stays.
#[verifier::external_body]
fn translate(core: &mut CpuCore, bus: &mut MacMemoryBus, at: u32, fetch: bool) -> (r: Option<u32>)
    ensures
        r == translated(held(*old(core)), old(bus).mem(), at, fetch),
        !held(*old(core)).translating() ==> r == Some(at),
        *final(core) == *old(core),
        *final(bus) == *old(bus),
{
    let supervisor = core.is_supervisor();
    m68k::mmu::translate_address(core, bus, at, false, supervisor, fetch).ok()
}

/// Runs `m68k::CpuCore::step`: one instruction, or the exception that a fetch raises
/// which fails. An A-line trap leaves the program counter behind the opcode word
/// and `ppc` at it, and the opcode is one of the A-line. The interpreter changes
/// memory only through the bus, whose own writes keep the size of RAM, the heap, and
/// the write record.
///
/// The interpreter does not survive every word, nor an instruction at the very end of
/// the address space; `steppable` leaves those out. What the instruction does to the
/// registers and to memory is left unsaid beyond that these registers and this memory
/// decide it, but for the instructions of the floating-point unit: it takes the whole
/// instruction set to say.
#[verifier::external_body]
fn step_core(core: &mut CpuCore, bus: &mut MacMemoryBus) -> (r: CpuStep)
    requires
        steppable(held(*old(core)), old(bus).mem()),
    ensures
        step_outcomes(held(*old(core)), old(bus).mem()).contains((r, held(*final(core)), final(bus).mem())),
        !floating(held(*old(core)), old(bus).mem()) ==> step_outcomes(held(*old(core)), old(bus).mem()) == set![
            (r, held(*final(core)), final(bus).mem()),
        ],
        r matches CpuStep::Aline(op) ==> 0xA000 <= op <= 0xAFFF && held(*final(core)).pc == held(
            *final(core),
        ).ppc.wrapping_add(2),
        final(bus).mem().len() == old(bus).mem().len(),
        final(bus).same_heap(old(bus)),
        final(bus).same_probe(old(bus)),
{
    match core.step(bus) {
        CoreStep::Ok { .. } => CpuStep::Done,
        CoreStep::Stopped => CpuStep::Stopped,
        CoreStep::AlineTrap { opcode } => CpuStep::Aline(opcode),
        CoreStep::FlineTrap { opcode } => CpuStep::Fline(opcode),
        CoreStep::TrapInstruction { trap_num } => CpuStep::Trap(trap_num),
        CoreStep::Breakpoint { bp_num } => CpuStep::Breakpoint(bp_num),
        CoreStep::IllegalInstruction { opcode } => CpuStep::Illegal(opcode),
    }
}

/// Reads the registers of `m68k::CpuCore`.
#[verifier::external_body]
fn core_regs(c: &CpuCore) -> (r: CpuRegs)
    ensures
        r.listed() == core_registers(*c),
{
    CpuRegs { dar: c.dar, pc: c.pc, ppc: c.ppc, ir: c.ir, stopped: c.stopped }
}

/// Reads which model a `m68k::CpuCore` is, whether it translates addresses, the flags that
/// make up its status register, and the bits that this has.
#[verifier::external_body]
fn read_core_flags(c: &CpuCore) -> (r: [u32; 18])
    ensures
        r@ == core_flags(*c),
{
    [
        c.cpu_type as u32, c.address_mask, c.instr_mode, c.has_pmmu as u32, c.is_pre_68020 as u32,
        c.sst_m68000_compat as u32, c.pmmu_enabled as u32, c.t1_flag, c.t0_flag, c.int_mask, c.x_flag, c.n_flag,
        c.not_z_flag, c.v_flag, c.c_flag, c.s_flag, c.m_flag, c.sr_mask,
    ]
}

/// Reads the control registers of `m68k::CpuCore` that are not among `CpuRegs`.
#[verifier::external_body]
fn core_words(c: &CpuCore) -> (r: Vec<u32>)
    ensures
        r@ == control_words(*c),
{
    vec![
        c.sr_save as u32, c.vbr, c.sfc, c.dfc, c.cacr, c.caar, c.itt0, c.itt1, c.dtt0, c.dtt1, c.fpiar, c.fpsr,
        c.fpcr, c.mmu_crp_aptr, c.mmu_crp_limit, c.mmu_srp_aptr, c.mmu_srp_limit, c.mmu_tc, c.mmu_sr as u32,
        c.mmu_tt0, c.mmu_tt1, c.urp, c.srp, c.tc, c.mmusr, c.dacr0, c.dacr1, c.iacr0, c.iacr1, c.int_level,
        c.change_of_flow as u32, c.pref_addr, c.pref_data, c.run_mode, c.fpu_just_reset as u32, c.reset_cycles,
        c.virq_state, c.nmi_pending, c.exception_processing as u32,
    ]
}

/// Reads the registers of `m68k::CpuCore` that hold saved integer registers, other
/// stack pointers, and floating-point values by their bits.
#[verifier::external_body]
fn core_state(c: &CpuCore) -> (r: ([u32; 16], [u32; 8], Vec<u64>))
    ensures
        r.0@ == saved_registers(*c),
        r.1@ == stack_pointers(*c),
        r.2@ == float_bits(*c),
{
    let f = &c.fpr;
    let fpr = vec![
        f[0].to_bits(), f[1].to_bits(), f[2].to_bits(), f[3].to_bits(), f[4].to_bits(), f[5].to_bits(), f[6].to_bits(),
        f[7].to_bits(),
    ];
    (c.dar_save, c.sp, fpr)
}

/// The processor: its registers, and the interpreter that runs on them.
pub struct M68kCpu {
    pub(crate) regs: CpuRegs,
    pub(crate) core: CpuCore,
}

/// The model, the flags and the bits of the status register after power-on.
pub open spec fn fresh_flags() -> Seq<u32> {
    model_words() + seq![0u32] + status_flags(0x2700) + seq![0xF71Fu32]
}

/// The registers that only the interpreter uses, after power-on.
pub open spec fn fresh_core() -> CoreView {
    CoreView {
        saved: Seq::new(16, |i: int| 0u32),
        stack_pointers: Seq::new(8, |i: int| 0u32),
        words: Seq::new(CONTROL_REGISTERS as nat, |i: int| 0u32),
        flags: fresh_flags(),
        fpr: Seq::new(8, |i: int| 0u64),
    }
}

impl CpuStep {
    /// What the runner makes of it. The coprocessor's instructions do nothing; TRAP,
    /// BKPT and illegal instructions stop the processor as STOP does.
    pub open spec fn result(self) -> StepResult {
        match self {
            CpuStep::Done | CpuStep::Fline(_) => StepResult::Done,
            CpuStep::Aline(op) => StepResult::Aline(op),
            _ => StepResult::Stopped,
        }
    }

    /// How it ends a run of instructions.
    pub open spec fn exit(self) -> CpuExit {
        match self {
            CpuStep::Done => CpuExit::BudgetExhausted,
            CpuStep::Stopped => CpuExit::Stopped,
            CpuStep::Aline(op) => CpuExit::Aline(op),
            CpuStep::Fline(op) => CpuExit::Fline(op),
            CpuStep::Trap(n) => CpuExit::Trap(n),
            CpuStep::Breakpoint(n) => CpuExit::Breakpoint(n),
            CpuStep::Illegal(op) => CpuExit::Illegal(op),
        }
    }

    fn to_exit(self) -> (r: CpuExit)
        ensures
            r == self.exit(),
    {
        match self {
            CpuStep::Done => CpuExit::BudgetExhausted,
            CpuStep::Stopped => CpuExit::Stopped,
            CpuStep::Aline(op) => CpuExit::Aline(op),
            CpuStep::Fline(op) => CpuExit::Fline(op),
            CpuStep::Trap(n) => CpuExit::Trap(n),
            CpuStep::Breakpoint(n) => CpuExit::Breakpoint(n),
            CpuStep::Illegal(op) => CpuExit::Illegal(op),
        }
    }
}

impl M68kCpu {
    /// The registers of the processor.
    pub closed spec fn view(&self) -> CpuView {
        self.regs.with_core(core_status(self.core), hidden(self.core))
    }

    /// All registers zero, interrupts masked, supervisor mode.
    pub fn new() -> (r: Self)
        ensures
            r@.dar == Seq::new(16, |i: int| 0u32),
            r@.pc == 0,
            r@.ppc == 0,
            r@.ir == 0,
            r@.sr == 0x2700,
            r@.stopped == 0,
            r@.core == fresh_core(),
    {
        M68kCpu { regs: CpuRegs { dar: [0u32; 16], pc: 0, ppc: 0, ir: 0, stopped: 0 }, core: new_core() }
    }

    pub fn read_reg(&self, r: Register) -> (v: u32)
        ensures
            v == self@.reg(r),
    {
        match r {
            Register::PC => self.regs.pc,
            _ => self.regs.dar[r.index()],
        }
    }

    pub fn write_reg(&mut self, r: Register, v: u32)
        ensures
            final(self)@ == old(self)@.with(r, v),
    {
        match r {
            Register::PC => {
                self.regs.pc = v;
            },
            _ => {
                let i: usize = r.index();
                self.regs.dar[i] = v;
            },
        }
    }

    /// The status register.
    pub fn get_sr(&self) -> (r: u16)
        ensures
            r == self@.sr,
    {
        read_core_status(&self.core)
    }

    /// The low byte of the status register.
    pub fn get_ccr(&self) -> (r: u8)
        ensures
            r == self@.sr % 256,
    {
        (read_core_status(&self.core) % 256) as u8
    }

    /// Sets the status register without serving interrupts or changing stacks.
    pub fn set_sr_noint_nosp(&mut self, sr: u16)
        ensures
            final(self)@ == old(self)@.with_status(sr),
    {
        set_core_status(&mut self.core, sr);
    }

    /// Sets the condition codes.
    pub fn set_ccr(&mut self, ccr: u8)
        ensures
            final(self)@ == old(self)@.with_status((old(self)@.sr / 256 * 256 + ccr % 32) as u16),
    {
        let sr: u16 = read_core_status(&self.core);
        set_core_status(&mut self.core, sr / 256 * 256 + (ccr % 32) as u16);
    }

    /// There are sixteen data and address registers.
    pub proof fn lemma_register_count(&self)
        ensures
            self@.dar.len() == 16,
    {
    }

    /// D0 to D7.
    pub fn data_registers(&self) -> (r: [u32; 8])
        ensures
            r@ == self@.dar.subrange(0, 8),
    {
        let d = &self.regs.dar;
        let r: [u32; 8] = [d[0], d[1], d[2], d[3], d[4], d[5], d[6], d[7]];
        assert(r@ =~= self@.dar.subrange(0, 8));
        r
    }

    /// A0 to A7.
    pub fn address_registers(&self) -> (r: [u32; 8])
        ensures
            r@ == self@.dar.subrange(8, 16),
    {
        let d = &self.regs.dar;
        let r: [u32; 8] = [d[8], d[9], d[10], d[11], d[12], d[13], d[14], d[15]];
        assert(r@ =~= self@.dar.subrange(8, 16));
        r
    }

    /// Sets all data and address registers.
    pub fn set_registers(&mut self, d: &[u32; 8], a: &[u32; 8])
        ensures
            final(self)@ == (CpuView { dar: d@ + a@, ..old(self)@ }),
    {
        self.regs.dar = [
            d[0], d[1], d[2], d[3], d[4], d[5], d[6], d[7], a[0], a[1], a[2], a[3], a[4], a[5], a[6], a[7],
        ];
        assert(self.regs.dar@ =~= d@ + a@);
    }

    /// The program counter.
    pub fn pc(&self) -> (r: u32)
        ensures
            r == self@.pc,
    {
        self.regs.pc
    }

    /// The address of the last instruction.
    pub fn ppc(&self) -> (r: u32)
        ensures
            r == self@.ppc,
    {
        self.regs.ppc
    }

    /// The last instruction word.
    pub fn ir(&self) -> (r: u32)
        ensures
            r == self@.ir,
    {
        self.regs.ir
    }

    /// Sets what the last instruction was and where it stood.
    pub fn set_last_instruction(&mut self, ppc: u32, opcode: u16)
        ensures
            final(self)@ == (CpuView { ppc, ir: opcode as u32, ..old(self)@ }),
    {
        self.regs.ppc = ppc;
        self.regs.ir = opcode as u32;
    }

    /// Whether the processor waits after a STOP instruction.
    pub fn is_stopped(&self) -> (r: bool)
        ensures
            r == (self@.stopped != 0),
    {
        self.regs.stopped != 0
    }

    /// The state of the processor at this moment.
    pub fn snapshot(&self) -> (r: CpuSnapshot)
        ensures
            r.registers() == self@.visible(),
    {
        let (saved, stack_pointers, fpr): ([u32; 16], [u32; 8], Vec<u64>) = core_state(&self.core);
        let core: CoreState = CoreState {
            saved,
            stack_pointers,
            words: core_words(&self.core),
            fpr,
        };
        CpuSnapshot { regs: self.regs, sr: read_core_status(&self.core), core }
    }

    /// The interpreter holds the same registers.
    spec fn loaded(&self) -> bool {
        core_registers(self.core) == self.regs.listed()
    }

    /// Hands the registers to the interpreter.
    fn load(&mut self)
        ensures
            final(self).loaded(),
            final(self)@ == old(self)@,
    {
        load_core(&mut self.core, &self.regs);
        self.regs = core_regs(&self.core);
        proof {
            self.regs.lemma_held(self.core);
        }
    }

    /// The word that is fetched next.
    fn fetch(&mut self, bus: &mut MacMemoryBus) -> (r: Option<u16>)
        requires
            old(self).loaded(),
        ensures
            *final(self) == *old(self),
            *final(bus) == *old(bus),
            r == fetched(old(self)@, old(bus).mem()),
    {
        proof {
            self.regs.lemma_held(self.core);
        }
        if self.regs.pc % 2 == 1 {
            return None;
        }
        match translate(&mut self.core, bus, self.regs.pc, true) {
            Some(at) => Some(bus.read_word(at)),
            None => None,
        }
    }

    /// Whether RTE finds a frame that is not one to throw away.
    fn finds_last_frame(&mut self, bus: &mut MacMemoryBus) -> (r: bool)
        requires
            old(self).loaded(),
        ensures
            *final(self) == *old(self),
            *final(bus) == *old(bus),
            r == returns_at_once(old(self)@, old(bus).mem()),
    {
        proof {
            self.regs.lemma_held(self.core);
        }
        match translate(&mut self.core, bus, self.regs.dar[15].wrapping_add(6), false) {
            Some(at) => bus.read_word(at) / 4096 != 1,
            None => true,
        }
    }

    /// Whether the interpreter can run the instruction `op` that was fetched.
    fn can_run(&mut self, bus: &mut MacMemoryBus, op: u16, translating: bool) -> (r: bool)
        requires
            old(self).loaded(),
            old(self)@.is_68030(),
            translating == old(self)@.translating(),
            fetched(old(self)@, old(bus).mem()) == Some(op),
        ensures
            *final(self) == *old(self),
            *final(bus) == *old(bus),
            r == steppable(old(self)@, old(bus).mem()),
    {
        proof {
            self.regs.lemma_held(self.core);
        }
        if is_unknown_operand(op, read_core_status(&self.core) & 0x2000 != 0) {
            return false;
        }
        let to_immediate: bool = 1 <= op / 4096 && op / 4096 <= 3 && op / 64 % 64 == 0x27;
        if op % 64 == 60 || op == 0x4E7A || op == 0x4E7B || to_immediate {
            if self.regs.pc > LAST_OPERAND {
                return false;
            }
            if translating && (to_immediate || translate(&mut self.core, bus, self.regs.pc.wrapping_add(2), true).is_none()) {
                return false;
            }
        }
        if op == RTE && (translating || bus.ram_size() > LARGEST_FRAME_RAM) {
            return self.finds_last_frame(bus);
        }
        true
    }

    /// Whether the interpreter can run the next instruction, `op` being the word that
    /// was fetched.
    fn can_step(&mut self, bus: &mut MacMemoryBus, op: Option<u16>) -> (r: bool)
        requires
            old(self).loaded(),
            fetched(old(self)@, old(bus).mem()) == op,
        ensures
            *final(self) == *old(self),
            *final(bus) == *old(bus),
            r == steppable(old(self)@, old(bus).mem()),
    {
        let m: [u32; 18] = read_core_flags(&self.core);
        proof {
            let k = model_words();
            assert(k[0] == 6 && k[1] == 0xFFFF_FFFF && k[2] == 0 && k[3] == 1 && k[4] == 0 && k[5] == 0);
        }
        if m[0] != 6 || m[1] != 0xFFFF_FFFF || m[2] != 0 || m[3] != 1 || m[4] != 0 || m[5] != 0 {
            return false;
        }
        match op {
            Some(op) => self.can_run(bus, op, m[6] != 0),
            None => true,
        }
    }

    /// Runs one instruction on registers that the interpreter holds, `op` being the word
    /// that was fetched.
    fn advance(&mut self, bus: &mut MacMemoryBus, op: Option<u16>) -> (r: CpuStep)
        requires
            old(self).loaded(),
            fetched(old(self)@, old(bus).mem()) == op,
        ensures
            r !is Illegal ==> final(self).loaded(),
            instruction_may_end(old(self)@, old(bus).mem(), r, final(self)@, final(bus).mem()),
            r matches CpuStep::Aline(op) ==> 0xA000 <= op <= 0xAFFF && final(self)@.pc == final(self)@.ppc.wrapping_add(2),
            final(bus).mem().len() == old(bus).mem().len(),
            final(bus).same_heap(old(bus)),
            final(bus).same_probe(old(bus)),
    {
        proof {
            self.regs.lemma_held(self.core);
        }
        if self.can_step(bus, op) {
            let end: CpuStep = step_core(&mut self.core, bus);
            self.regs = core_regs(&self.core);
            proof {
                self.regs.lemma_held(self.core);
            }
            end
        } else {
            let op: u16 = match op {
                Some(w) => w,
                None => 0,
            };
            self.regs.ppc = self.regs.pc;
            self.regs.ir = op as u32;
            self.regs.pc = self.regs.pc.wrapping_add(2);
            CpuStep::Illegal(op)
        }
    }

    /// Runs at most `max` instructions until one of them does not simply lead to the next
    /// or the program counter comes to an address of `watch`. They are handed to the
    /// interpreter one at a time, each after a look at its words: a batch of the
    /// interpreter's own could come to words on which it does not return.
    pub fn run_batch(&mut self, bus: &mut MacMemoryBus, max: u32, watch: &[u32]) -> (r: (u32, CpuExit))
        ensures
            batch_may_end(
                old(self)@,
                old(bus).mem(),
                max,
                watch@,
                r.0,
                r.1,
                final(self)@,
                final(bus).mem(),
            ),
            r.0 <= max,
            r.1 is BudgetExhausted ==> r.0 == max,
            r.1 matches CpuExit::WatchedPc(pc) ==> watch@.contains(pc) && final(self)@.pc == pc && r.0 >= 1,
            r.1 matches CpuExit::Aline(op) ==> 0xA000 <= op <= 0xAFFF && final(self)@.pc == final(self)@.ppc.wrapping_add(2),
            final(self)@.dar.len() == 16,
            final(bus).mem().len() == old(bus).mem().len(),
            final(bus).same_heap(old(bus)),
            final(bus).same_probe(old(bus)),
    {
        self.load();
        if self.regs.stopped != 0 {
            return (0, CpuExit::Stopped);
        }
        let mut n: u32 = 0;
        let mut faults: u32 = 0;
        let ghost start = CpuPoint { c: self@, mem: bus.mem(), n: 0, faults: 0 };
        let ghost mut path: Seq<CpuPoint> = seq![start];
        while n < max
            invariant
                n <= max,
                self.loaded(),
                self@.stopped == 0,
                start == (CpuPoint { c: old(self)@, mem: old(bus).mem(), n: 0, faults: 0 }),
                faults < MOST_FAULTS,
                start.c.stopped == 0,
                path.len() >= 1,
                path[0] == start,
                path.last() == (CpuPoint { c: self@, mem: bus.mem(), n: n as int, faults: faults as int }),
                CpuPoint::runs(path, max, watch@),
                bus.mem().len() == old(bus).mem().len(),
                bus.same_heap(old(bus)),
                bus.same_probe(old(bus)),
            decreases max - n, MOST_FAULTS - faults,
        {
            let ghost before = path.last();
            let op: Option<u16> = self.fetch(bus);
            let end: CpuStep = self.advance(bus, op);
            assert(instruction_may_end(before.c, before.mem, end, self@, bus.mem()));
            if !matches!(end, CpuStep::Done) {
                proof {
                    let last = CpuPoint { c: self@, mem: bus.mem(), n: n as int, faults: 0 };
                    assert(before.ends_run(last, watch@, end, end.exit()));
                }
                return (n, end.to_exit());
            }
            if op.is_some() {
                n = n + 1;
                faults = 0;
            } else {
                faults = faults + 1;
            }
            let ghost next = CpuPoint { c: self@, mem: bus.mem(), n: n as int, faults: faults as int };
            let ghost last = CpuPoint { faults: 0, ..next };
            if self.regs.stopped != 0 {
                assert(before.ends_run(last, watch@, end, CpuExit::Stopped));
                return (n, CpuExit::Stopped);
            }
            if op.is_none() {
                if faults >= MOST_FAULTS {
                    let op: u16 = bus.read_word(self.regs.pc);
                    assert(before.ends_run(last, watch@, end, CpuExit::Illegal(op)));
                    return (n, CpuExit::Illegal(op));
                }
            } else if is_among(self.regs.pc, watch) {
                assert(before.ends_run(last, watch@, end, CpuExit::WatchedPc(self@.pc)));
                return (n, CpuExit::WatchedPc(self.regs.pc));
            }
            proof {
                assert(before.runs_on(next, max, watch@));
                lemma_runs_longer(path, next, max, watch@);
                path = path.push(next);
            }
        }
        proof {
            let last = CpuPoint { faults: 0, ..path.last() };
            assert(path.last().runs_out(last, max, watch@, CpuExit::BudgetExhausted));
        }
        (n, CpuExit::BudgetExhausted)
    }

    /// Runs one instruction.
    pub fn step(&mut self, bus: &mut MacMemoryBus) -> (r: StepResult)
        ensures
            old(self)@.stopped != 0 ==> r is Stopped && final(self)@ == old(self)@ && final(bus).mem() == old(
                bus,
            ).mem(),
            old(self)@.stopped == 0 ==> exists|end: CpuStep|
                r == end.result() && #[trigger] instruction_may_end(
                    old(self)@,
                    old(bus).mem(),
                    end,
                    final(self)@,
                    final(bus).mem(),
                ),
            r matches StepResult::Aline(op) ==> 0xA000 <= op <= 0xAFFF && final(self)@.pc == final(self)@.ppc.wrapping_add(2),
            final(self)@.dar.len() == 16,
            final(bus).mem().len() == old(bus).mem().len(),
            final(bus).same_heap(old(bus)),
            final(bus).same_probe(old(bus)),
    {
        self.load();
        if self.regs.stopped != 0 {
            return StepResult::Stopped;
        }
        let op: Option<u16> = self.fetch(bus);
        let end: CpuStep = self.advance(bus, op);
        assert(instruction_may_end(old(self)@, old(bus).mem(), end, self@, bus.mem()));
        match end {
            CpuStep::Done => StepResult::Done,
            CpuStep::Fline(_) => StepResult::Done,
            CpuStep::Aline(op) => StepResult::Aline(op),
            _ => StepResult::Stopped,
        }
    }
}

/// Whether the interpreter has no instruction for opcode `op` and does not return from
/// it.
pub fn is_unknown_operand(op: u16, supervisor: bool) -> (r: bool)
    ensures
        r == unknown_operand(op, supervisor),
{
    let part: u16 = op / 256 % 16;
    op % 64 >= 61 && match op / 4096 {
        0 => (part == 4 || part == 6 || part == 10 || part == 12) && op / 64 % 4 != 3,
        4 => op / 64 % 8 != 6 && op / 128 != 0x98 && (op / 64 != 0x11B || supervisor),
        14 => op / 64 % 4 == 3 && part < 8,
        5 | 8 | 9 | 11 | 12 | 13 => true,
        _ => false,
    }
}

fn is_among(a: u32, list: &[u32]) -> (r: bool)
    ensures
        r == list@.contains(a),
{
    let mut i: usize = 0;
    while i < list.len()
        invariant
            i <= list.len(),
            forall|k: int| 0 <= k < i ==> list@[k] != a,
        decreases list.len() - i,
    {
        if list[i] == a {
            return true;
        }
        i += 1;
    }
    false
}

proof fn lemma_runs_longer(path: Seq<CpuPoint>, next: CpuPoint, max: u32, watch: Seq<u32>)
    requires
        path.len() >= 1,
        CpuPoint::runs(path, max, watch),
        path.last().runs_on(next, max, watch),
    ensures
        CpuPoint::runs(path.push(next), max, watch),
{
    let longer = path.push(next);
    assert forall|i: int| 0 <= i < longer.len() - 1 implies (#[trigger] longer[i]).runs_on(longer[i + 1], max, watch) by {
        if i < path.len() - 1 {
            assert(path[i].runs_on(path[i + 1], max, watch));
        }
    }
}

} // verus!

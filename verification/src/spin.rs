use vstd::prelude::*;

use crate::cpu::{CpuView, Register};
use crate::globals::TICKS;
use crate::memory::{group_memory_lengths, BusView};
use crate::runner::{FixtureRunner, RunnerView};

verus! {

broadcast use {group_memory_lengths, crate::trap::group_dispatcher_fields};

/// The longest wait that is skipped, in ticks.
pub const SPIN_FASTFWD_MAX_TICKS: u32 = 1_000_000;

/// How an advance to some tick ended.
#[derive(Clone, Copy, Debug, PartialEq, Eq, Structural)]
pub enum AdvanceResult {
    /// The tick was reached.
    Advanced,
    /// The tick cap came first.
    CapHit,
    /// A callback interrupted the application.
    Interrupted,
    /// The tick is too far away; nothing was done.
    TooFar,
}

/// What a skipped wait loop leaves behind.
#[derive(Clone, Copy, Debug, PartialEq, Eq, Structural)]
pub enum SpinExit {
    /// The tick count on the stack is renewed; the loop itself decides.
    Renew,
    /// The loop is left: the stack slot is popped, data register `data` holds
    /// the tick count less `less`, execution goes on at `pc`, and `instructions`
    /// are counted.
    Leave { data: u16, less: u32, pc: u32, instructions: u32 },
}

/// A loop that waits for a tick.
#[derive(Clone, Copy, Debug, PartialEq, Eq, Structural)]
pub struct SpinWait {
    /// The first tick at which the loop ends.
    pub until: u32,
    pub exit: SpinExit,
}

/// The data register in bits 9 to 11 of an instruction word.
pub open spec fn data_field(w: u16) -> u16 {
    (w >> 9) & 7
}

/// The address register in bits 0 to 2 of an instruction word.
pub open spec fn address_field(w: u16) -> u16 {
    w & 7
}

/// A displacement word as an address offset.
pub open spec fn displacement(w: u16) -> u32 {
    w as i16 as i32 as u32
}

/// The short branch at `at`: its condition, and where it goes.
pub open spec fn short_branch(b: BusView, at: u32) -> Option<(u16, u32)> {
    let w = b.get_word(at);
    if w & 0xFF == 0 {
        None
    } else {
        Some((w & 0xFF00, at.wrapping_add(2).wrapping_add((w & 0xFF) as i8 as i32 as u32)))
    }
}

/// Where the operand `(d16, An)` of the instruction word at `at` stands.
pub open spec fn based_address(cpu: CpuView, b: BusView, at: u32) -> u32 {
    cpu.dar[8 + address_field(b.get_word(at))].wrapping_add(displacement(b.get_word(at.wrapping_add(2))))
}

/// `CMP.L (A7)+,Dn; BCC.S/BEQ.S <back to CLR.L -(A7)>`: the loop lasts while Dn
/// is not below, or is, the tick count.
pub open spec fn stack_compare_wait(cpu: CpuView, b: BusView, pc: u32) -> Option<SpinWait> {
    let w = b.get_word(pc);
    let limit = cpu.dar[data_field(w) as int];
    match short_branch(b, pc.wrapping_add(2)) {
        Some((condition, target)) if w & 0xF1FF == 0xB09F && (condition == 0x6400 || (condition == 0x6700
            && b.get_long(cpu.sp()) == limit)) && target == pc.wrapping_sub(4) && b.get_word(target) == 0x42A7 => Some(
            SpinWait { until: limit.wrapping_add(1), exit: SpinExit::Renew },
        ),
        _ => None,
    }
}

/// `MOVE.W (d16,An),Dn; EXT.L Dn; ADD.L (d16,Am),Dn; CMP.L (A7)+,Dn;
/// BGT.S/BGE.S <back to SUBQ.W #4,A7>`: the loop lasts while the deadline is
/// after, or not before, the tick count.
pub open spec fn deadline_wait(cpu: CpuView, b: BusView, pc: u32) -> Option<SpinWait> {
    let w = b.get_word(pc);
    let add = b.get_word(pc.wrapping_add(6));
    let compare = b.get_word(pc.wrapping_add(10));
    let delay = b.get_word(based_address(cpu, b, pc)) as i16 as i32 as u32;
    let deadline = b.get_long(based_address(cpu, b, pc.wrapping_add(6))).wrapping_add(delay);
    let seen = b.get_long(cpu.sp()) as i32;
    let form = {
        &&& w & 0xF1F8 == 0x3028
        &&& b.get_word(pc.wrapping_add(4)) == 0x48C0 | data_field(w)
        &&& add & 0xF1F8 == 0xD0A8
        &&& data_field(add) == data_field(w)
        &&& compare & 0xF1FF == 0xB09F
        &&& data_field(compare) == data_field(w)
    };
    match short_branch(b, pc.wrapping_add(12)) {
        Some((condition, target)) if form && target == pc.wrapping_sub(4) && b.get_word(target) == 0x594F => if condition
            == 0x6E00 && deadline as i32 > seen {
            Some(SpinWait { until: deadline, exit: SpinExit::Renew })
        } else if condition == 0x6C00 && deadline as i32 >= seen && deadline as i32 != i32::MAX {
            Some(SpinWait { until: deadline.wrapping_add(1), exit: SpinExit::Renew })
        } else {
            None
        },
        _ => None,
    }
}

/// `MOVE.L (A7)+,Dn`, which starts the other loops.
pub open spec fn pops_tick(b: BusView, pc: u32) -> bool {
    b.get_word(pc) & 0xF1FF == 0x201F
}

/// `SUBQ.L #imm,Dn; CMP.L Dn,Dm; BHI.S <back to SUBQ.W #4,A7>`: the loop lasts
/// while Dm is above the tick count less `imm`.
pub open spec fn offset_wait(cpu: CpuView, b: BusView, pc: u32) -> Option<SpinWait> {
    let dn = data_field(b.get_word(pc));
    let w = b.get_word(pc.wrapping_add(2));
    let compare = b.get_word(pc.wrapping_add(4));
    let imm: u32 = if data_field(w) == 0 { 8 } else { data_field(w) as u32 };
    let form = {
        &&& pops_tick(b, pc)
        &&& w & 0xF1F8 == 0x5180
        &&& address_field(w) == dn
        &&& compare & 0xF1F8 == 0xB080
        &&& address_field(compare) == dn
    };
    match short_branch(b, pc.wrapping_add(6)) {
        Some((condition, target)) if form && condition == 0x6200 && target == pc.wrapping_sub(4) => Some(
            SpinWait {
                until: cpu.dar[data_field(compare) as int].wrapping_add(imm),
                exit: SpinExit::Leave { data: dn, less: imm, pc: pc.wrapping_add(8), instructions: 4 },
            },
        ),
        _ => None,
    }
}

/// `CMP.L (d16,An),Dn; BLS.S/BLT.S/BLE.S <back, at most 128 bytes>`: the loop
/// lasts while the tick count is not above, below, or not above (signed) the
/// value in memory.
pub open spec fn memory_wait(cpu: CpuView, b: BusView, pc: u32) -> Option<SpinWait> {
    let dn = data_field(b.get_word(pc));
    let w = b.get_word(pc.wrapping_add(2));
    let limit = b.get_long(based_address(cpu, b, pc.wrapping_add(2)));
    let seen = b.get_long(cpu.sp()) as i32;
    let exit = SpinExit::Leave { data: dn, less: 0, pc: pc.wrapping_add(8), instructions: 3 };
    let form = {
        &&& pops_tick(b, pc)
        &&& w & 0xF1F8 == 0xB0A8
        &&& data_field(w) == dn
    };
    match short_branch(b, pc.wrapping_add(6)) {
        Some((condition, target)) if form && target < pc && pc - target <= 128 => if condition == 0x6300 {
            Some(SpinWait { until: limit.wrapping_add(1), exit })
        } else if condition == 0x6D00 && seen < limit as i32 {
            Some(SpinWait { until: limit, exit })
        } else if condition == 0x6F00 && seen <= limit as i32 && limit != 0x7FFF_FFFF {
            Some(SpinWait { until: limit.wrapping_add(1), exit })
        } else {
            None
        },
        _ => None,
    }
}

/// `CMP.L (xxx).L,Dn; BCS.S <back to SUBQ.W #4,A7>`: the loop lasts while the
/// tick count is below the value in memory.
pub open spec fn absolute_wait(b: BusView, pc: u32) -> Option<SpinWait> {
    let dn = data_field(b.get_word(pc));
    let w = b.get_word(pc.wrapping_add(2));
    let form = {
        &&& pops_tick(b, pc)
        &&& w & 0xF1FF == 0xB0B9
        &&& data_field(w) == dn
    };
    match short_branch(b, pc.wrapping_add(8)) {
        Some((condition, target)) if form && condition == 0x6500 && target == pc.wrapping_sub(4) => Some(
            SpinWait {
                until: b.get_long(b.get_long(pc.wrapping_add(4))),
                exit: SpinExit::Leave { data: dn, less: 0, pc: pc.wrapping_add(10), instructions: 3 },
            },
        ),
        _ => None,
    }
}

/// The wait loop that goes on at `pc`, behind a `TickCount` trap.
#[verifier::opaque]
pub open spec fn spin_wait(cpu: CpuView, b: BusView, pc: u32) -> Option<SpinWait> {
    let w = b.get_word(pc);
    let next = b.get_word(pc.wrapping_add(2));
    if w & 0xF1FF == 0xB09F {
        stack_compare_wait(cpu, b, pc)
    } else if w & 0xF1F8 == 0x3028 {
        deadline_wait(cpu, b, pc)
    } else if next & 0xF1F8 == 0x5180 {
        offset_wait(cpu, b, pc)
    } else if next & 0xF1F8 == 0xB0A8 {
        memory_wait(cpu, b, pc)
    } else {
        absolute_wait(b, pc)
    }
}

impl RunnerView {
    /// The state after at most `n` ticks, and what ended it.
    pub open spec fn ticked_until(self, n: nat, cap: Option<u32>) -> (RunnerView, AdvanceResult)
        decreases n,
    {
        if n == 0 {
            (self, AdvanceResult::Advanced)
        } else if self.reached(cap) {
            (self, AdvanceResult::CapHit)
        } else {
            let s = self.ticked();
            if s.active is Some {
                (s, AdvanceResult::Interrupted)
            } else {
                s.ticked_until((n - 1) as nat, cap)
            }
        }
    }

    /// The state after the advance to tick `target`, and how it ended.
    pub open spec fn advanced_to(self, target: u32, cap: Option<u32>) -> (RunnerView, AdvanceResult) {
        let n = target.wrapping_sub(self.disp.tick_count);
        if n > SPIN_FASTFWD_MAX_TICKS {
            (self, AdvanceResult::TooFar)
        } else {
            self.ticked_until(n as nat, cap)
        }
    }

    /// The state after the loop at `pc` was skipped as far as possible, whether
    /// the tick cap ended it, and the instructions that count as executed.
    pub open spec fn spun(self, pc: u32, cap: Option<u32>) -> (RunnerView, bool, u32) {
        match spin_wait(self.cpu, self.bus, pc) {
            None => (self, false, 0),
            Some(wait) => {
                let (s, ended) = self.advanced_to(wait.until, cap);
                match wait.exit {
                    SpinExit::Renew => if ended is Advanced || ended is CapHit {
                        (
                            RunnerView { bus: s.bus.long(s.cpu.sp(), s.disp.tick_count), ..s },
                            ended is CapHit,
                            0,
                        )
                    } else {
                        (s, false, 0)
                    },
                    SpinExit::Leave { data, less, pc, instructions } => if ended is Advanced {
                        (
                            RunnerView {
                                cpu: CpuView {
                                    dar: s.cpu.dar.update(15, s.cpu.sp().wrapping_add(4)).update(
                                        data as int,
                                        s.disp.tick_count.wrapping_sub(less),
                                    ),
                                    pc,
                                    ..s.cpu
                                },
                                total_instructions: s.total_instructions.wrapping_add(instructions as u64),
                                ..s
                            },
                            false,
                            instructions,
                        )
                    } else {
                        (s, ended is CapHit, 0)
                    },
                }
            },
        }
    }
}

/// A number of 32 bits read with its sign.
pub open spec fn signed(x: u32) -> int {
    if x < 0x8000_0000 {
        x as int
    } else {
        x - 0x1_0000_0000
    }
}

/// A branch with this condition is taken after `x` was compared with `y`.
pub open spec fn taken(condition: u16, x: u32, y: u32) -> bool {
    match condition {
        0x6200 => x > y,
        0x6300 => x <= y,
        0x6400 => x >= y,
        0x6500 => x < y,
        0x6700 => x == y,
        0x6C00 => signed(x) >= signed(y),
        0x6D00 => signed(x) < signed(y),
        0x6E00 => signed(x) > signed(y),
        0x6F00 => signed(x) <= signed(y),
        _ => false,
    }
}

/// The loop at `pc`, behind a `TickCount` trap that gave `tick`, goes round once
/// more: the branch at its end is taken, after the comparison that it makes.
pub open spec fn goes_round(cpu: CpuView, b: BusView, pc: u32, tick: u32) -> bool {
    let w = b.get_word(pc);
    let next = b.get_word(pc.wrapping_add(2));
    let (branch, x, y) = if w & 0xF1FF == 0xB09F {
        (pc.wrapping_add(2), cpu.dar[data_field(w) as int], tick)
    } else if w & 0xF1F8 == 0x3028 {
        let delay = b.get_word(based_address(cpu, b, pc)) as i16 as i32 as u32;
        let deadline = b.get_long(based_address(cpu, b, pc.wrapping_add(6))).wrapping_add(delay);
        (pc.wrapping_add(12), deadline, tick)
    } else if next & 0xF1F8 == 0x5180 {
        let imm: u32 = if data_field(next) == 0 { 8 } else { data_field(next) as u32 };
        (
            pc.wrapping_add(6),
            cpu.dar[data_field(b.get_word(pc.wrapping_add(4))) as int],
            tick.wrapping_sub(imm),
        )
    } else if next & 0xF1F8 == 0xB0A8 {
        (pc.wrapping_add(6), tick, b.get_long(based_address(cpu, b, pc.wrapping_add(2))))
    } else {
        (pc.wrapping_add(8), tick, b.get_long(b.get_long(pc.wrapping_add(4))))
    };
    short_branch(b, branch) matches Some((condition, _)) && taken(condition, x, y)
}

proof fn lemma_signed(x: u32)
    ensures
        x as i32 == signed(x),
{
    assert(x < 0x8000_0000 ==> x as i32 == x) by (bit_vector);
    assert(x >= 0x8000_0000 ==> x as i32 == x - 0x1_0000_0000) by (bit_vector);
}

/// A wait is skipped up to the tick at which the loop itself would have ended, and
/// no further: at every tick before it the loop goes round, and at that tick it
/// does not. `seen` is the tick that the loop has just read; the clock has counted
/// its first few ticks and does not wrap around before the wait is over.
pub proof fn lemma_skip_ends_with_loop(cpu: CpuView, b: BusView, pc: u32, seen: u32, tick: u32)
    requires
        spin_wait(cpu, b, pc) is Some,
        b.get_long(cpu.sp()) == seen,
        8 <= seen <= tick < spin_wait(cpu, b, pc)->0.until,
    ensures
        goes_round(cpu, b, pc, tick),
        !goes_round(cpu, b, pc, spin_wait(cpu, b, pc)->0.until),
{
    reveal(spin_wait);
    lemma_signed(seen);
    lemma_fields(b.get_word(pc.wrapping_add(2)));
    let delay = b.get_word(based_address(cpu, b, pc)) as i16 as i32 as u32;
    lemma_signed(b.get_long(based_address(cpu, b, pc.wrapping_add(6))).wrapping_add(delay));
    lemma_signed(b.get_long(based_address(cpu, b, pc.wrapping_add(2))));
}

/// The register fields of an instruction word are below 8.
proof fn lemma_fields(w: u16)
    ensures
        data_field(w) < 8,
        address_field(w) < 8,
{
    assert((w >> 9) & 7 < 8) by (bit_vector);
    assert(w & 7 < 8) by (bit_vector);
}

/// A wait loop counts at most four instructions and names a data register.
pub proof fn lemma_spin_wait_bounds(cpu: CpuView, b: BusView, pc: u32)
    ensures
        spin_wait(cpu, b, pc) matches Some(w) ==> (w.exit matches SpinExit::Leave { data, instructions, .. } ==> data < 8
            && instructions <= 4),
{
    reveal(spin_wait);
    lemma_fields(b.get_word(pc));
}

impl FixtureRunner {
    fn read_short_branch(&self, at: u32) -> (r: Option<(u16, u32)>)
        ensures
            r == short_branch(self@.bus, at),
    {
        let w: u16 = self.bus.read_word(at);
        if w & 0xFF == 0 {
            None
        } else {
            Some((w & 0xFF00, at.wrapping_add(2).wrapping_add((w & 0xFF) as i8 as i32 as u32)))
        }
    }

    fn read_based_address(&self, at: u32) -> (r: u32)
        requires
            self@.cpu.dar.len() == 16,
        ensures
            r == based_address(self@.cpu, self@.bus, at),
    {
        let w: u16 = self.bus.read_word(at);
        proof {
            lemma_fields(w);
        }
        let base: u32 = self.cpu.read_reg(Register::address(w & 7));
        base.wrapping_add(self.bus.read_word(at.wrapping_add(2)) as i16 as i32 as u32)
    }

    fn read_stack_compare_wait(&self, pc: u32) -> (r: Option<SpinWait>)
        requires
            self@.cpu.dar.len() == 16,
        ensures
            r == stack_compare_wait(self@.cpu, self@.bus, pc),
    {
        let w: u16 = self.bus.read_word(pc);
        proof {
            lemma_fields(w);
        }
        let limit: u32 = self.cpu.read_reg(Register::data((w >> 9) & 7));
        if w & 0xF1FF != 0xB09F {
            return None;
        }
        let branch: (u16, u32) = match self.read_short_branch(pc.wrapping_add(2)) {
            Some(b) => b,
            None => return None,
        };
        let seen: u32 = self.bus.read_long(self.cpu.read_reg(Register::A7));
        if !(branch.0 == 0x6400 || (branch.0 == 0x6700 && seen == limit)) {
            return None;
        }
        if branch.1 != pc.wrapping_sub(4) || self.bus.read_word(branch.1) != 0x42A7 {
            return None;
        }
        Some(SpinWait { until: limit.wrapping_add(1), exit: SpinExit::Renew })
    }

    fn read_deadline_wait(&self, pc: u32) -> (r: Option<SpinWait>)
        requires
            self@.cpu.dar.len() == 16,
        ensures
            r == deadline_wait(self@.cpu, self@.bus, pc),
    {
        let w: u16 = self.bus.read_word(pc);
        let dn: u16 = (w >> 9) & 7;
        if w & 0xF1F8 != 0x3028 || self.bus.read_word(pc.wrapping_add(4)) != 0x48C0 | dn {
            return None;
        }
        let w_add: u16 = self.bus.read_word(pc.wrapping_add(6));
        if w_add & 0xF1F8 != 0xD0A8 || (w_add >> 9) & 7 != dn {
            return None;
        }
        let w_compare: u16 = self.bus.read_word(pc.wrapping_add(10));
        if w_compare & 0xF1FF != 0xB09F || (w_compare >> 9) & 7 != dn {
            return None;
        }
        let branch: (u16, u32) = match self.read_short_branch(pc.wrapping_add(12)) {
            Some(b) => b,
            None => return None,
        };
        if branch.1 != pc.wrapping_sub(4) || self.bus.read_word(branch.1) != 0x594F {
            return None;
        }
        let delay: u32 = self.bus.read_word(self.read_based_address(pc)) as i16 as i32 as u32;
        let base: u32 = self.bus.read_long(self.read_based_address(pc.wrapping_add(6)));
        let deadline: u32 = base.wrapping_add(delay);
        let seen: i32 = self.bus.read_long(self.cpu.read_reg(Register::A7)) as i32;
        if branch.0 == 0x6E00 && deadline as i32 > seen {
            Some(SpinWait { until: deadline, exit: SpinExit::Renew })
        } else if branch.0 == 0x6C00 && deadline as i32 >= seen && deadline as i32 != i32::MAX {
            Some(SpinWait { until: deadline.wrapping_add(1), exit: SpinExit::Renew })
        } else {
            None
        }
    }

    fn read_offset_wait(&self, pc: u32) -> (r: Option<SpinWait>)
        requires
            self@.cpu.dar.len() == 16,
        ensures
            r == offset_wait(self@.cpu, self@.bus, pc),
    {
        let w0: u16 = self.bus.read_word(pc);
        let dn: u16 = (w0 >> 9) & 7;
        let w: u16 = self.bus.read_word(pc.wrapping_add(2));
        if w0 & 0xF1FF != 0x201F || w & 0xF1F8 != 0x5180 || w & 7 != dn {
            return None;
        }
        let imm: u32 = if (w >> 9) & 7 == 0 { 8 } else { ((w >> 9) & 7) as u32 };
        let w_compare: u16 = self.bus.read_word(pc.wrapping_add(4));
        if w_compare & 0xF1F8 != 0xB080 || w_compare & 7 != dn {
            return None;
        }
        match self.read_short_branch(pc.wrapping_add(6)) {
            Some((condition, target)) => {
                if condition != 0x6200 || target != pc.wrapping_sub(4) {
                    return None;
                }
            },
            None => return None,
        }
        proof {
            lemma_fields(w_compare);
        }
        let limit: u32 = self.cpu.read_reg(Register::data((w_compare >> 9) & 7));
        Some(
            SpinWait {
                until: limit.wrapping_add(imm),
                exit: SpinExit::Leave { data: dn, less: imm, pc: pc.wrapping_add(8), instructions: 4 },
            },
        )
    }

    fn read_memory_wait(&self, pc: u32) -> (r: Option<SpinWait>)
        requires
            self@.cpu.dar.len() == 16,
        ensures
            r == memory_wait(self@.cpu, self@.bus, pc),
    {
        let w0: u16 = self.bus.read_word(pc);
        let dn: u16 = (w0 >> 9) & 7;
        let w: u16 = self.bus.read_word(pc.wrapping_add(2));
        if w0 & 0xF1FF != 0x201F || w & 0xF1F8 != 0xB0A8 || (w >> 9) & 7 != dn {
            return None;
        }
        let branch: (u16, u32) = match self.read_short_branch(pc.wrapping_add(6)) {
            Some(b) => b,
            None => return None,
        };
        if branch.1 >= pc || pc - branch.1 > 128 {
            return None;
        }
        let limit: u32 = self.bus.read_long(self.read_based_address(pc.wrapping_add(2)));
        let seen: i32 = self.bus.read_long(self.cpu.read_reg(Register::A7)) as i32;
        let exit: SpinExit = SpinExit::Leave { data: dn, less: 0, pc: pc.wrapping_add(8), instructions: 3 };
        if branch.0 == 0x6300 {
            Some(SpinWait { until: limit.wrapping_add(1), exit })
        } else if branch.0 == 0x6D00 && seen < limit as i32 {
            Some(SpinWait { until: limit, exit })
        } else if branch.0 == 0x6F00 && seen <= limit as i32 && limit != 0x7FFF_FFFF {
            Some(SpinWait { until: limit.wrapping_add(1), exit })
        } else {
            None
        }
    }

    fn read_absolute_wait(&self, pc: u32) -> (r: Option<SpinWait>)
        ensures
            r == absolute_wait(self@.bus, pc),
    {
        let w0: u16 = self.bus.read_word(pc);
        let dn: u16 = (w0 >> 9) & 7;
        let w: u16 = self.bus.read_word(pc.wrapping_add(2));
        if w0 & 0xF1FF != 0x201F || w & 0xF1FF != 0xB0B9 || (w >> 9) & 7 != dn {
            return None;
        }
        match self.read_short_branch(pc.wrapping_add(8)) {
            Some((condition, target)) => {
                if condition != 0x6500 || target != pc.wrapping_sub(4) {
                    return None;
                }
            },
            None => return None,
        }
        let limit: u32 = self.bus.read_long(self.bus.read_long(pc.wrapping_add(4)));
        Some(
            SpinWait {
                until: limit,
                exit: SpinExit::Leave { data: dn, less: 0, pc: pc.wrapping_add(10), instructions: 3 },
            },
        )
    }

    /// The wait loop that goes on at `pc`, behind a `TickCount` trap.
    pub fn find_spin_wait(&self, pc: u32) -> (r: Option<SpinWait>)
        requires
            self@.cpu.dar.len() == 16,
        ensures
            r == spin_wait(self@.cpu, self@.bus, pc),
    {
        proof {
            reveal(spin_wait);
        }
        let w: u16 = self.bus.read_word(pc);
        if w & 0xF1FF == 0xB09F {
            return self.read_stack_compare_wait(pc);
        }
        if w & 0xF1F8 == 0x3028 {
            return self.read_deadline_wait(pc);
        }
        let next: u16 = self.bus.read_word(pc.wrapping_add(2));
        if next & 0xF1F8 == 0x5180 {
            return self.read_offset_wait(pc);
        }
        if next & 0xF1F8 == 0xB0A8 {
            return self.read_memory_wait(pc);
        }
        self.read_absolute_wait(pc)
    }

    /// Advances the guest to tick `target_tick`.
    pub fn advance_until_tick(&mut self, target_tick: u32, tick_cap: Option<u32>) -> (r: AdvanceResult)
        requires
            old(self).wf(),
        ensures
            (final(self)@, r) == old(self)@.advanced_to(target_tick, tick_cap),
            final(self).wf(),
    {
        let n: u32 = target_tick.wrapping_sub(self.dispatcher.tick_count);
        if n > SPIN_FASTFWD_MAX_TICKS {
            return AdvanceResult::TooFar;
        }
        let mut left: u32 = n;
        while left > 0
            invariant
                self.wf(),
                old(self)@.advanced_to(target_tick, tick_cap) == self@.ticked_until(left as nat, tick_cap),
            decreases left,
        {
            if let Some(cap) = tick_cap {
                if self.bus.read_long(TICKS) >= cap {
                    return AdvanceResult::CapHit;
                }
            }
            self.advance_guest_tick();
            if self.active_interrupt_callback.is_some() {
                return AdvanceResult::Interrupted;
            }
            left = left - 1;
        }
        AdvanceResult::Advanced
    }

    /// Skips the wait loop that goes on at `pc_after_trap`: whether the tick cap
    /// ended it, and the instructions that count as executed.
    pub fn try_tickcount_spin_fastfwd(&mut self, pc_after_trap: u32, tick_cap: Option<u32>) -> (r: (bool, u32))
        requires
            old(self).wf(),
        ensures
            (final(self)@, r.0, r.1) == old(self)@.spun(pc_after_trap, tick_cap),
            r.1 <= 4,
            final(self).wf(),
    {
        proof {
            lemma_spin_wait_bounds(self@.cpu, self@.bus, pc_after_trap);
        }
        let wait: SpinWait = match self.find_spin_wait(pc_after_trap) {
            Some(w) => w,
            None => return (false, 0),
        };
        let ended: AdvanceResult = self.advance_until_tick(wait.until, tick_cap);
        match wait.exit {
            SpinExit::Renew => {
                match ended {
                    AdvanceResult::CapHit | AdvanceResult::Advanced => {
                        let sp: u32 = self.cpu.read_reg(Register::A7);
                        self.bus.write_long(sp, self.dispatcher.tick_count);
                    },
                    _ => {},
                }
                (matches!(ended, AdvanceResult::CapHit), 0)
            },
            SpinExit::Leave { data, less, pc, instructions } => {
                if !matches!(ended, AdvanceResult::Advanced) {
                    return (matches!(ended, AdvanceResult::CapHit), 0);
                }
                let tick: u32 = self.dispatcher.tick_count;
                let sp: u32 = self.cpu.read_reg(Register::A7);
                self.cpu.write_reg(Register::A7, sp.wrapping_add(4));
                self.cpu.write_reg(Register::data(data), tick.wrapping_sub(less));
                self.cpu.write_reg(Register::PC, pc);
                self.total_instructions = self.total_instructions.wrapping_add(instructions as u64);
                (false, instructions)
            },
        }
    }
}

} // verus!

use vstd::prelude::*;

use crate::cpu::{CpuView, M68kCpu, Register};
use crate::dialog::DialogView;
use crate::events::{QueuedEvent, NULL_EVENT};
use crate::globals::{MMU32_BIT, RND_SEED};
use crate::memory::{group_memory_lengths, BusView, MacMemoryBus};
use crate::policy::{canonical_trap_number, trap_number};
use crate::shell::TrapAnswer;
use crate::trap::{bumped, with_event_record, DispView, Error, GuestWindow, TrapDispatcher};

verus! {

broadcast use group_memory_lengths;

pub const TRAP_HIDE_CURSOR: u16 = 0xA852;
pub const TRAP_SHOW_CURSOR: u16 = 0xA853;
pub const TRAP_SHIELD_CURSOR: u16 = 0xA855;
pub const TRAP_SWAP_MMU_MODE: u16 = 0xA05D;
pub const TRAP_RANDOM: u16 = 0xA861;
pub const TRAP_GLOBAL_TO_LOCAL: u16 = 0xA871;
pub const TRAP_SET_PORT: u16 = 0xA873;
pub const TRAP_OFFSET_RECT: u16 = 0xA8A8;
pub const TRAP_PT_IN_RECT: u16 = 0xA8AD;
pub const TRAP_FM_SWAP_FONT: u16 = 0xA901;
pub const TRAP_GET_NEXT_EVENT: u16 = 0xA970;
pub const TRAP_EVENT_AVAIL: u16 = 0xA971;
pub const TRAP_TICK_COUNT: u16 = 0xA975;
pub const TRAP_MODAL_DIALOG: u16 = 0xA991;
pub const TRAP_SYSTEM_TASK: u16 = 0xA9B4;
pub const TRAP_LAUNCH: u16 = 0xA9F2;
pub const TRAP_EXIT_TO_SHELL: u16 = 0xA9F4;

/// Bytes of the record that `FMSwapFont` points to.
pub const FM_OUTPUT_SIZE: u32 = 26;

/// The registers with `n` bytes popped off the stack.
pub open spec fn popped(c: CpuView, n: u32) -> CpuView {
    c.with(Register::A7, c.sp().wrapping_add(n))
}

/// The next value of the random number generator.
pub open spec fn next_seed(seed: u32) -> u32 {
    ((seed * 16807) % 0x7FFF_FFFF) as u32
}

/// The random number that a seed gives.
pub open spec fn random_of(seed: u32) -> u16 {
    if seed % 0x1_0000 == 0x8000 {
        0
    } else {
        (seed % 0x1_0000) as u16
    }
}

/// The window that `ptr` stands for: the first of that address.
pub open spec fn window_at(windows: Seq<GuestWindow>, ptr: u32, from: int) -> Option<int>
    decreases windows.len() - from,
{
    if from < 0 || from >= windows.len() {
        None
    } else if windows[from].ptr == ptr {
        Some(from)
    } else {
        window_at(windows, ptr, from + 1)
    }
}

impl DispView {
    /// Where the current port's coordinates start on the screen.
    pub open spec fn port_origin(self) -> (i16, i16) {
        match window_at(self.windows, self.current_port, 0) {
            Some(i) => (self.windows[i].bounds.0, self.windows[i].bounds.1),
            None => (0, 0),
        }
    }

    /// The state when trap `opcode` at address `pc` begins: it is counted, and
    /// traps of the application's own work are counted apart.
    pub open spec fn trapped(self, opcode: u16, pc: u32) -> DispView {
        let (tool, number) = trap_number(opcode);
        let polls = tool && (number == 0x170 || number == 0x171 || number == 0x60 || number == 0x175);
        DispView {
            current_trap_word: opcode,
            game_trap_count: if pc < 0x0080_0000 && !self.tracking() && !polls {
                bumped(self.game_trap_count)
            } else {
                self.game_trap_count
            },
            ..self.counted(opcode)
        }
    }

    /// The state when an inline trap begins.
    pub open spec fn trapped_inline(self, opcode: u16) -> DispView {
        DispView { current_trap_word: opcode, ..self.counted_inline(opcode) }
    }
}

/// Memory after the point at `ptr` was moved by the origin's distance.
pub open spec fn localized(b: BusView, ptr: u32, origin: (i16, i16)) -> BusView {
    let v = (b.get_word(ptr)).wrapping_sub(origin.0 as u16);
    let b = b.word(ptr, v);
    b.word(ptr.wrapping_add(2), b.get_word(ptr.wrapping_add(2)).wrapping_sub(origin.1 as u16))
}

/// Memory after the rectangle at `ptr` was moved.
pub open spec fn offset_rect(b: BusView, ptr: u32, dv: u16, dh: u16) -> BusView {
    let b = b.word(ptr, b.get_word(ptr).wrapping_add(dv));
    let b = b.word(ptr.wrapping_add(2), b.get_word(ptr.wrapping_add(2)).wrapping_add(dh));
    let b = b.word(ptr.wrapping_add(4), b.get_word(ptr.wrapping_add(4)).wrapping_add(dv));
    b.word(ptr.wrapping_add(6), b.get_word(ptr.wrapping_add(6)).wrapping_add(dh))
}

/// The point (`v`, `h`) lies in the rectangle at `ptr`.
pub open spec fn in_rect(b: BusView, ptr: u32, v: i16, h: i16) -> bool {
    &&& b.get_word(ptr) as i16 <= v
    &&& v < b.get_word(ptr.wrapping_add(4)) as i16
    &&& b.get_word(ptr.wrapping_add(2)) as i16 <= h
    &&& h < b.get_word(ptr.wrapping_add(6)) as i16
}

/// `PtInRect`: memory with its result, the rectangle being on top of the stack
/// and the point behind it.
pub open spec fn pt_in_rect(b: BusView, sp: u32) -> BusView {
    let inside = in_rect(
        b,
        b.get_long(sp),
        b.get_word(sp.wrapping_add(4)) as i16,
        b.get_word(sp.wrapping_add(6)) as i16,
    );
    b.word(sp.wrapping_add(8), if inside { 0x0100u16 } else { 0u16 })
}

/// `GetNextEvent` and `EventAvail`: memory with the event, or a null event, and
/// the result. The record's address is on top of the stack, the mask behind it.
pub open spec fn event_reply(d: DispView, b: BusView, sp: u32) -> BusView {
    let ptr = b.get_long(sp);
    match d.next_event(b.get_word(sp.wrapping_add(4))) {
        Some(ev) => with_event_record(b, ptr, ev, d.tick_count).word(sp.wrapping_add(6), 0xFFFF),
        None => with_event_record(b, ptr, d.event_here(NULL_EVENT, 0), d.tick_count).word(sp.wrapping_add(6), 0),
    }
}

/// `ModalDialog` with a dialog in progress: a filter procedure that has dealt
/// with the event ends it; otherwise it goes on.
pub open spec fn modal_dialog(d: DispView, dialog: DialogView, c: CpuView, b: BusView) -> (DispView, CpuView) {
    if dialog.last_filter_event is Some && b.get_word(d.dialog_filter_result_addr) != 0 {
        (DispView { dialog: None, ..d }, popped(c, 8))
    } else {
        let next = DialogView {
            last_filter_event: None,
            rendered_pixels_final: dialog.rendered_pixels_final || dialog.draw_procs_done,
            ..dialog
        };
        (DispView { dialog: Some(next), ..d }, c)
    }
}

/// What trap `opcode` does, and whether it was served.
#[verifier::opaque]
pub open spec fn served(d: DispView, c: CpuView, b: BusView, opcode: u16) -> (
    DispView,
    CpuView,
    BusView,
    Result<(), Error>,
) {
    let sp = c.sp();
    if opcode == TRAP_TICK_COUNT {
        (d, c, b.long(sp, d.tick_count), Ok(()))
    } else if opcode == TRAP_GET_NEXT_EVENT {
        (d.without_next_event(b.get_word(sp.wrapping_add(4))), popped(c, 6), event_reply(d, b, sp), Ok(()))
    } else if opcode == TRAP_EVENT_AVAIL {
        (d, popped(c, 6), event_reply(d, b, sp), Ok(()))
    } else if opcode == TRAP_SYSTEM_TASK {
        (d, c, b, Ok(()))
    } else if opcode == TRAP_GLOBAL_TO_LOCAL {
        (d, popped(c, 4), localized(b, b.get_long(sp), d.port_origin()), Ok(()))
    } else if opcode == TRAP_OFFSET_RECT {
        (
            d,
            popped(c, 8),
            offset_rect(b, b.get_long(sp.wrapping_add(4)), b.get_word(sp), b.get_word(sp.wrapping_add(2))),
            Ok(()),
        )
    } else if opcode == TRAP_PT_IN_RECT {
        (d, popped(c, 8), pt_in_rect(b, sp), Ok(()))
    } else if opcode == TRAP_RANDOM {
        let seed = next_seed(b.get_long(RND_SEED));
        (d, c, b.long(RND_SEED, seed).word(sp, random_of(seed)), Ok(()))
    } else if opcode == TRAP_SET_PORT {
        (DispView { current_port: b.get_long(sp), ..d }, popped(c, 4), b, Ok(()))
    } else if opcode == TRAP_SHOW_CURSOR {
        let level = if d.cursor_level < 0 { (d.cursor_level + 1) as i16 } else { 0 };
        (DispView { cursor_level: level, ..d }, c, b, Ok(()))
    } else if opcode == TRAP_HIDE_CURSOR {
        (DispView { cursor_level: lowered_level(d.cursor_level), ..d }, c, b, Ok(()))
    } else if opcode == TRAP_SHIELD_CURSOR {
        (DispView { cursor_level: lowered_level(d.cursor_level), ..d }, popped(c, 8), b, Ok(()))
    } else if opcode == TRAP_FM_SWAP_FONT {
        let (ptr, arena) = if d.fm_output == 0 {
            b.stub_allocated(FM_OUTPUT_SIZE)
        } else {
            (d.fm_output, b)
        };
        (DispView { fm_output: ptr, ..d }, popped(c, 4), arena.long(sp.wrapping_add(4), ptr), Ok(()))
    } else if opcode == TRAP_SWAP_MMU_MODE {
        let d0 = c.reg(Register::D0);
        (
            d,
            c.with(Register::D0, (d0 - d0 % 256 + b.get_byte(MMU32_BIT)) as u32),
            b.byte(MMU32_BIT, (d0 % 256) as u8),
            Ok(()),
        )
    } else if opcode == TRAP_LAUNCH || opcode == TRAP_EXIT_TO_SHELL {
        (d, c, b, Err(Error::Halted))
    } else if opcode == TRAP_MODAL_DIALOG && d.dialog is Some {
        let (d2, c2) = modal_dialog(d, d.dialog->0, c, b);
        (d2, c2, b, Ok(()))
    } else if d.refires(opcode) && opcode != TRAP_MODAL_DIALOG && opcode & 0x0400 == 0 {
        (d, c, b, Ok(()))
    } else {
        match d.answer_to(opcode) {
            Some(a) => (d, answered_cpu(c, a), answered_bus(b, c.sp(), a), Ok(())),
            None => (d, c, b, Err(Error::UnimplementedTrap(opcode))),
        }
    }
}

/// The registers after the host's answer to a trap.
pub open spec fn answered_cpu(c: CpuView, a: TrapAnswer) -> CpuView {
    let p = popped(c, a.popped);
    match a.d0 {
        Some(v) => p.with(Register::D0, v),
        None => p,
    }
}

/// Memory after the host's answer to a trap.
pub open spec fn answered_bus(b: BusView, sp: u32, a: TrapAnswer) -> BusView {
    match a.result {
        Some(w) => b.word(sp.wrapping_add(a.popped), w),
        None => b,
    }
}

fn write_answer(a: TrapAnswer, cpu: &mut M68kCpu, bus: &mut MacMemoryBus)
    requires
        old(cpu)@.dar.len() == 16,
    ensures
        final(cpu)@ == answered_cpu(old(cpu)@, a),
        final(bus)@ == answered_bus(old(bus)@, old(cpu)@.sp(), a),
        final(cpu)@.dar.len() == 16,
        old(bus).probe_wf() ==> final(bus).probe_wf(),
        final(bus)@.mem.len() == old(bus)@.mem.len(),
{
    let sp: u32 = cpu.read_reg(Register::A7).wrapping_add(a.popped);
    if let Some(w) = a.result {
        bus.write_word(sp, w);
    }
    cpu.write_reg(Register::A7, sp);
    if let Some(v) = a.d0 {
        cpu.write_reg(Register::D0, v);
    }
}

/// A cursor level one lower.
pub open spec fn lowered_level(level: i16) -> i16 {
    if level == i16::MIN {
        level
    } else {
        (level - 1) as i16
    }
}

impl TrapDispatcher {
    /// How often the cursor was hidden more than it was shown, as a number that
    /// is not above zero.
    pub fn cursor_level(&self) -> (r: i16)
        ensures
            r == self@.cursor_level,
    {
        proof {
            reveal(TrapDispatcher::view);
        }
        self.cursor_level
    }

    /// Whether the cursor can be seen.
    pub fn cursor_visible(&self) -> (r: bool)
        ensures
            r == (self@.cursor_level >= 0),
    {
        proof {
            reveal(TrapDispatcher::view);
        }
        self.cursor_level >= 0
    }

    fn hide_cursor(&mut self)
        ensures
            final(self)@ == (DispView { cursor_level: lowered_level(old(self)@.cursor_level), ..old(self)@ }),
            old(self).wf() ==> final(self).wf(),
    {
        proof {
            reveal(TrapDispatcher::view);
        }
        if self.cursor_level > i16::MIN {
            self.cursor_level = self.cursor_level - 1;
        }
    }

    fn show_cursor(&mut self)
        ensures
            final(self)@ == (DispView {
                cursor_level: if old(self)@.cursor_level < 0 { (old(self)@.cursor_level + 1) as i16 } else { 0 },
                ..old(self)@
            }),
            old(self).wf() ==> final(self).wf(),
    {
        proof {
            reveal(TrapDispatcher::view);
        }
        self.cursor_level = if self.cursor_level < 0 { self.cursor_level + 1 } else { 0 };
    }

    fn read_port_origin(&self) -> (r: (i16, i16))
        ensures
            r == self@.port_origin(),
    {
        proof {
            reveal(TrapDispatcher::view);
        }
        let mut i: usize = 0;
        while i < self.windows.len()
            invariant
                i <= self.windows.len(),
                window_at(self@.windows, self.current_port, 0) == window_at(
                    self@.windows,
                    self.current_port,
                    i as int,
                ),
            decreases self.windows.len() - i,
        {
            proof {
                reveal(TrapDispatcher::view);
            }
            let w: GuestWindow = self.windows[i];
            if w.ptr == self.current_port {
                return (w.bounds.0, w.bounds.1);
            }
            i += 1;
        }
        (0, 0)
    }

    /// Counts a trap that begins.
    pub fn begin_trap(&mut self, opcode: u16, pc: u32)
        requires
            old(self).wf(),
        ensures
            final(self)@ == old(self)@.trapped(opcode, pc),
            final(self).wf(),
    {
        proof {
            reveal(TrapDispatcher::view);
        }
        let (tool, number): (bool, u16) = canonical_trap_number(opcode);
        let polls: bool = tool && (number == 0x170 || number == 0x171 || number == 0x60 || number == 0x175);
        let tracking: bool = self.menu_tracking || self.dialog_tracking.is_some() || self.control_tracking;
        if pc < 0x0080_0000 && !tracking && !polls {
            self.game_trap_count = self.game_trap_count.saturating_add(1);
        }
        self.count_trap(opcode, false);
        self.current_trap_word = opcode;
    }

    /// Counts an inline trap that begins.
    pub fn begin_inline_trap(&mut self, opcode: u16)
        requires
            old(self).wf(),
        ensures
            final(self)@ == old(self)@.trapped_inline(opcode),
            final(self).wf(),
    {
        proof {
            reveal(TrapDispatcher::view);
        }
        self.count_trap(opcode, true);
        self.current_trap_word = opcode;
    }

    /// Writes the reply of `GetNextEvent` or `EventAvail`.
    pub fn write_event_reply(&self, bus: &mut MacMemoryBus, sp: u32, ev: Option<QueuedEvent>)
        requires
            ev == self@.next_event(old(bus)@.get_word(sp.wrapping_add(4))),
        ensures
            final(bus)@ == event_reply(self@, old(bus)@, sp),
            old(bus).probe_wf() ==> final(bus).probe_wf(),
            final(bus)@.mem.len() == old(bus)@.mem.len(),
    {
        proof {
            reveal(TrapDispatcher::view);
        }
        let ptr: u32 = bus.read_long(sp);
        match ev {
            Some(e) => {
                self.write_event_record(bus, ptr, e);
                bus.write_word(sp.wrapping_add(6), 0xFFFF);
            },
            None => {
                let e: QueuedEvent = self.make_event(NULL_EVENT, 0);
                self.write_event_record(bus, ptr, e);
                bus.write_word(sp.wrapping_add(6), 0);
            },
        }
    }

    fn get_next_event(&mut self, bus: &mut MacMemoryBus, sp: u32)
        ensures
            final(self)@ == old(self)@.without_next_event(old(bus)@.get_word(sp.wrapping_add(4))),
            old(self).wf() ==> final(self).wf(),
            final(bus)@ == event_reply(old(self)@, old(bus)@, sp),
            old(bus).probe_wf() ==> final(bus).probe_wf(),
            final(bus)@.mem.len() == old(bus)@.mem.len(),
    {
        proof {
            reveal(TrapDispatcher::view);
        }
        let mask: u16 = bus.read_word(sp.wrapping_add(4));
        let ev: Option<QueuedEvent> = self.peek_toolbox_event(mask);
        self.write_event_reply(bus, sp, ev);
        self.dequeue_toolbox_event(mask);
    }

    fn continue_modal_dialog(&mut self, cpu: &mut M68kCpu, bus: &MacMemoryBus)
        requires
            old(self)@.dialog is Some,
            old(cpu)@.dar.len() == 16,
        ensures
            (final(self)@, final(cpu)@) == modal_dialog(old(self)@, old(self)@.dialog->0, old(cpu)@, bus@),
            old(self).wf() ==> final(self).wf(),
            final(cpu)@.dar.len() == 16,
    {
        proof {
            reveal(TrapDispatcher::view);
        }
        let result: u16 = bus.read_word(self.dialog_filter_result_addr);
        let mut ended: bool = false;
        if let Some(d) = &mut self.dialog_tracking {
            if d.last_filter_event.is_some() && result != 0 {
                ended = true;
            } else {
                d.last_filter_event = None;
                if d.draw_procs_done {
                    d.rendered_pixels_final = true;
                }
            }
        }
        if ended {
            self.dialog_tracking = None;
            let sp: u32 = cpu.read_reg(Register::A7);
            cpu.write_reg(Register::A7, sp.wrapping_add(8));
        }
    }

    fn swap_font(&mut self, bus: &mut MacMemoryBus, sp: u32)
        ensures
            ({
                let (ptr, arena) = if old(self)@.fm_output == 0 {
                    old(bus)@.stub_allocated(FM_OUTPUT_SIZE)
                } else {
                    (old(self)@.fm_output, old(bus)@)
                };
                &&& final(self)@ == (DispView { fm_output: ptr, ..old(self)@ })
                &&& final(bus)@ == arena.long(sp.wrapping_add(4), ptr)
            }),
            old(self).wf() ==> final(self).wf(),
            old(bus).probe_wf() ==> final(bus).probe_wf(),
            final(bus)@.mem.len() == old(bus)@.mem.len(),
    {
        proof {
            reveal(TrapDispatcher::view);
        }
        if self.fm_output == 0 {
            self.fm_output = bus.alloc_synthetic(FM_OUTPUT_SIZE);
        }
        bus.write_long(sp.wrapping_add(4), self.fm_output);
    }

    /// Serves trap `opcode`.
    #[verifier::rlimit(60)]
    pub fn serve(&mut self, opcode: u16, cpu: &mut M68kCpu, bus: &mut MacMemoryBus) -> (r: Result<(), Error>)
        requires
            old(cpu)@.dar.len() == 16,
        ensures
            (final(self)@, final(cpu)@, final(bus)@, r) == served(old(self)@, old(cpu)@, old(bus)@, opcode),
            old(self).wf() ==> final(self).wf(),
            final(cpu)@.dar.len() == 16,
            old(bus).probe_wf() ==> final(bus).probe_wf(),
            final(bus)@.mem.len() == old(bus)@.mem.len(),
    {
        proof {
            reveal(TrapDispatcher::view);
            reveal(served);
        }
        let sp: u32 = cpu.read_reg(Register::A7);
        match opcode {
            TRAP_TICK_COUNT => {
                bus.write_long(sp, self.tick_count);
                Ok(())
            },
            TRAP_GET_NEXT_EVENT => {
                self.get_next_event(bus, sp);
                cpu.write_reg(Register::A7, sp.wrapping_add(6));
                Ok(())
            },
            TRAP_EVENT_AVAIL => {
                let ev: Option<QueuedEvent> = self.peek_toolbox_event(bus.read_word(sp.wrapping_add(4)));
                self.write_event_reply(bus, sp, ev);
                cpu.write_reg(Register::A7, sp.wrapping_add(6));
                Ok(())
            },
            TRAP_SYSTEM_TASK => Ok(()),
            TRAP_GLOBAL_TO_LOCAL => {
                let origin: (i16, i16) = self.read_port_origin();
                write_localized(bus, bus.read_long(sp), origin);
                cpu.write_reg(Register::A7, sp.wrapping_add(4));
                Ok(())
            },
            TRAP_OFFSET_RECT => {
                let dv: u16 = bus.read_word(sp);
                let dh: u16 = bus.read_word(sp.wrapping_add(2));
                let rect: u32 = bus.read_long(sp.wrapping_add(4));
                write_offset_rect(bus, rect, dv, dh);
                cpu.write_reg(Register::A7, sp.wrapping_add(8));
                Ok(())
            },
            TRAP_PT_IN_RECT => {
                write_pt_in_rect(bus, sp);
                cpu.write_reg(Register::A7, sp.wrapping_add(8));
                Ok(())
            },
            TRAP_RANDOM => {
                write_random(bus, sp);
                Ok(())
            },
            TRAP_SET_PORT => {
                self.current_port = bus.read_long(sp);
                cpu.write_reg(Register::A7, sp.wrapping_add(4));
                Ok(())
            },
            TRAP_SHOW_CURSOR => {
                self.show_cursor();
                Ok(())
            },
            TRAP_HIDE_CURSOR => {
                self.hide_cursor();
                Ok(())
            },
            TRAP_SHIELD_CURSOR => {
                self.hide_cursor();
                cpu.write_reg(Register::A7, sp.wrapping_add(8));
                Ok(())
            },
            TRAP_FM_SWAP_FONT => {
                self.swap_font(bus, sp);
                cpu.write_reg(Register::A7, sp.wrapping_add(4));
                Ok(())
            },
            TRAP_SWAP_MMU_MODE => {
                let d0: u32 = cpu.read_reg(Register::D0);
                let before: u8 = bus.read_byte(MMU32_BIT);
                bus.write_byte(MMU32_BIT, (d0 % 256) as u8);
                cpu.write_reg(Register::D0, d0 - d0 % 256 + before as u32);
                Ok(())
            },
            TRAP_LAUNCH | TRAP_EXIT_TO_SHELL => Err(Error::Halted),
            _ => {
                if opcode == TRAP_MODAL_DIALOG && self.dialog_tracking.is_some() {
                    self.continue_modal_dialog(cpu, bus);
                    Ok(())
                } else if self.is_tracking_refire(opcode) && opcode != TRAP_MODAL_DIALOG && opcode & 0x0400 == 0 {
                    Ok(())
                } else {
                    match self.trap_answer(opcode) {
                        Some(a) => {
                            write_answer(a, cpu, bus);
                            Ok(())
                        },
                        None => Err(Error::UnimplementedTrap(opcode)),
                    }
                }
            },
        }
    }

    /// Counts and serves trap `opcode`, whose word stands before the program
    /// counter.
    pub fn dispatch(&mut self, opcode: u16, cpu: &mut M68kCpu, bus: &mut MacMemoryBus) -> (r: Result<(), Error>)
        requires
            old(self).wf(),
            old(cpu)@.dar.len() == 16,
        ensures
            (final(self)@, final(cpu)@, final(bus)@, r) == served(
                old(self)@.trapped(opcode, old(cpu)@.pc.wrapping_sub(2)),
                old(cpu)@,
                old(bus)@,
                opcode,
            ),
            final(self).wf(),
            final(cpu)@.dar.len() == 16,
            old(bus).probe_wf() ==> final(bus).probe_wf(),
            final(bus)@.mem.len() == old(bus)@.mem.len(),
    {
        proof {
            reveal(TrapDispatcher::view);
        }
        let pc: u32 = cpu.read_reg(Register::PC);
        self.begin_trap(opcode, pc.wrapping_sub(2));
        self.serve(opcode, cpu, bus)
    }
}

fn write_localized(bus: &mut MacMemoryBus, ptr: u32, origin: (i16, i16))
    ensures
        final(bus)@ == localized(old(bus)@, ptr, origin),
        old(bus).probe_wf() ==> final(bus).probe_wf(),
        final(bus)@.mem.len() == old(bus)@.mem.len(),
{
    let v: u16 = bus.read_word(ptr).wrapping_sub(origin.0 as u16);
    bus.write_word(ptr, v);
    let h: u16 = bus.read_word(ptr.wrapping_add(2)).wrapping_sub(origin.1 as u16);
    bus.write_word(ptr.wrapping_add(2), h);
}

fn write_offset_rect(bus: &mut MacMemoryBus, ptr: u32, dv: u16, dh: u16)
    ensures
        final(bus)@ == offset_rect(old(bus)@, ptr, dv, dh),
        old(bus).probe_wf() ==> final(bus).probe_wf(),
        final(bus)@.mem.len() == old(bus)@.mem.len(),
{
    let top: u16 = bus.read_word(ptr).wrapping_add(dv);
    bus.write_word(ptr, top);
    let left: u16 = bus.read_word(ptr.wrapping_add(2)).wrapping_add(dh);
    bus.write_word(ptr.wrapping_add(2), left);
    let bottom: u16 = bus.read_word(ptr.wrapping_add(4)).wrapping_add(dv);
    bus.write_word(ptr.wrapping_add(4), bottom);
    let right: u16 = bus.read_word(ptr.wrapping_add(6)).wrapping_add(dh);
    bus.write_word(ptr.wrapping_add(6), right);
}

/// Writes the result of `PtInRect`.
pub fn write_pt_in_rect(bus: &mut MacMemoryBus, sp: u32)
    ensures
        final(bus)@ == pt_in_rect(old(bus)@, sp),
        old(bus).probe_wf() ==> final(bus).probe_wf(),
        final(bus)@.mem.len() == old(bus)@.mem.len(),
{
    let rect: u32 = bus.read_long(sp);
    let v: i16 = bus.read_word(sp.wrapping_add(4)) as i16;
    let h: i16 = bus.read_word(sp.wrapping_add(6)) as i16;
    let top: i16 = bus.read_word(rect) as i16;
    let left: i16 = bus.read_word(rect.wrapping_add(2)) as i16;
    let bottom: i16 = bus.read_word(rect.wrapping_add(4)) as i16;
    let right: i16 = bus.read_word(rect.wrapping_add(6)) as i16;
    let inside: bool = v >= top && v < bottom && h >= left && h < right;
    bus.write_word(sp.wrapping_add(8), if inside { 0x0100 } else { 0 });
}

fn write_random(bus: &mut MacMemoryBus, sp: u32)
    ensures
        ({
            let seed = next_seed(old(bus)@.get_long(RND_SEED));
            final(bus)@ == old(bus)@.long(RND_SEED, seed).word(sp, random_of(seed))
        }),
        old(bus).probe_wf() ==> final(bus).probe_wf(),
        final(bus)@.mem.len() == old(bus)@.mem.len(),
{
    let seed: u32 = ((bus.read_long(RND_SEED) as u64 * 16807) % 0x7FFF_FFFF) as u32;
    bus.write_long(RND_SEED, seed);
    let low: u32 = seed % 0x1_0000;
    bus.write_word(sp, if low == 0x8000 { 0 } else { low as u16 });
}

} // verus!

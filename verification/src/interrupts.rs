use vstd::prelude::*;

use crate::cpu::{CpuView, Register};
use crate::globals::{J_CRSR_TASK, THE_GDEVICE};
use crate::memory::group_memory_lengths;
use crate::runner::{ActiveInterruptCallback, ActiveInterruptCallbackSource, ActiveView, FixtureRunner, RunnerView};
use crate::stubs::{cursor_stub, ready_cursor_stub};
use crate::trap::DispView;

verus! {

broadcast use {group_memory_lengths, crate::trap::group_dispatcher_fields};

/// Address of the subroutine that does nothing.
pub const CURSOR_TASK_NOOP_ADDR: u32 = 0x0000_0060;

/// The status register while a callback of this kind runs: retrace work runs at
/// priority level 1.
pub open spec fn callback_sr(source: ActiveInterruptCallbackSource, sr: u16) -> u16 {
    match source {
        ActiveInterruptCallbackSource::Vbl | ActiveInterruptCallbackSource::CursorTask => (sr & 0xF8FF) | 0x2100,
        _ => sr,
    }
}

/// The status register while a callback of this kind runs.
pub fn interrupt_callback_sr(source: ActiveInterruptCallbackSource, saved_sr: u16) -> (r: u16)
    ensures
        r == callback_sr(source, saved_sr),
{
    match source {
        ActiveInterruptCallbackSource::Vbl | ActiveInterruptCallbackSource::CursorTask => (saved_sr & 0xF8FF) | 0x2100,
        _ => saved_sr,
    }
}

/// Callbacks of the Sound Manager.
pub open spec fn sound_source(source: ActiveInterruptCallbackSource) -> bool {
    source is SoundCallback || source is SoundFileCompletion || source is SoundDoubleBack
}

/// Whether a callback belongs to the Sound Manager.
pub fn is_sound_interrupt_source(source: ActiveInterruptCallbackSource) -> (r: bool)
    ensures
        r == sound_source(source),
{
    match source {
        ActiveInterruptCallbackSource::SoundCallback => true,
        ActiveInterruptCallbackSource::SoundFileCompletion => true,
        ActiveInterruptCallbackSource::SoundDoubleBack => true,
        _ => false,
    }
}

/// The processor priority is below level 1.
pub open spec fn level_one_open(sr: u16) -> bool {
    sr & 0x0700 < 0x0100
}

impl RunnerView {
    /// The state that a callback returns to.
    pub open spec fn saved(self, source: ActiveInterruptCallbackSource) -> ActiveView {
        ActiveView {
            source,
            resume_pc: self.cpu.pc,
            resume_sp: self.cpu.sp(),
            d_regs: self.cpu.dar.subrange(0, 8),
            a_regs: self.cpu.dar.subrange(8, 16),
            sr: self.cpu.sr,
            ccr: (self.cpu.sr % 256) as u8,
            restore_port: None,
        }
    }

    /// The state when a callback has interrupted the application: its return
    /// address is on the stack, execution goes on at `stub`, and what was
    /// interrupted is remembered.
    #[verifier::opaque]
    pub open spec fn interrupted(self, source: ActiveInterruptCallbackSource, stub: u32) -> RunnerView {
        let sp = self.cpu.sp().wrapping_sub(4);
        let sr = callback_sr(source, self.cpu.sr);
        RunnerView {
            bus: self.bus.long(sp, self.cpu.pc),
            cpu: CpuView {
                dar: self.cpu.dar.update(15, sp),
                pc: stub,
                ..if sr == self.cpu.sr { self.cpu } else { self.cpu.with_status(sr) }
            },
            active: Some(self.saved(source)),
            ..self
        }
    }

    /// The state with the registers as callback `a` found them, and with the port
    /// that it left.
    pub open spec fn resumed(self, a: ActiveView) -> RunnerView {
        let cpu = CpuView { dar: a.d_regs + a.a_regs, ..self.cpu.with_status(a.sr) };
        match a.restore_port {
            Some((port, device)) => RunnerView {
                cpu,
                disp: DispView { current_port: port, ..self.disp },
                bus: self.bus.long(THE_GDEVICE, device),
                ..self
            },
            None => RunnerView { cpu, ..self },
        }
    }

    /// The cursor task that has to run now.
    pub open spec fn cursor_task(self) -> Option<u32> {
        let addr = self.bus.get_long(J_CRSR_TASK);
        if self.active is None && level_one_open(self.cpu.sr) && addr != 0 && addr != CURSOR_TASK_NOOP_ADDR {
            Some(addr)
        } else {
            None
        }
    }

    /// The state after the cursor task had its chance to run.
    #[verifier::opaque]
    pub open spec fn cursor_fired(self) -> RunnerView {
        match self.cursor_task() {
            Some(addr) => {
                let (bus, t) = cursor_stub(self.bus, self.cursor_task_trampoline, addr);
                RunnerView { bus, cursor_task_trampoline: t, ..self }.interrupted(
                    ActiveInterruptCallbackSource::CursorTask,
                    t,
                )
            },
            None => self,
        }
    }
}

impl FixtureRunner {
    /// Interrupts the application: remembers it, pushes its return address and
    /// goes on at `trampoline`.
    pub fn inject_interrupt_callback(&mut self, source: ActiveInterruptCallbackSource, trampoline: u32)
        requires
            old(self).wf(),
        ensures
            final(self)@ == old(self)@.interrupted(source, trampoline),
            final(self).wf(),
    {
        proof {
            reveal(RunnerView::interrupted);
        }
        let current_pc: u32 = self.cpu.read_reg(Register::PC);
        let sp: u32 = self.cpu.read_reg(Register::A7);
        let d_regs: [u32; 8] = self.cpu.data_registers();
        let a_regs: [u32; 8] = self.cpu.address_registers();
        let sr: u16 = self.cpu.get_sr();
        let ccr: u8 = self.cpu.get_ccr();
        let new_sp: u32 = sp.wrapping_sub(4);
        self.bus.write_long(new_sp, current_pc);
        self.cpu.write_reg(Register::A7, new_sp);
        self.active_interrupt_callback = Some(
            ActiveInterruptCallback {
                source,
                resume_pc: current_pc,
                resume_sp: sp,
                d_regs,
                a_regs,
                sr,
                ccr,
                restore_port: None,
            },
        );
        let new_sr: u16 = interrupt_callback_sr(source, sr);
        if new_sr != sr {
            self.cpu.set_sr_noint_nosp(new_sr);
        }
        self.cpu.write_reg(Register::PC, trampoline);
    }

    /// Gives the processor and the port back as callback `a` found them.
    pub fn restore_interrupted(&mut self, a: &ActiveInterruptCallback)
        requires
            old(self).wf(),
        ensures
            final(self)@ == old(self)@.resumed(a@),
            final(self).wf(),
    {
        self.cpu.set_registers(&a.d_regs, &a.a_regs);
        self.cpu.set_sr_noint_nosp(a.sr);
        if let Some((port, device)) = a.restore_port {
            self.dispatcher.set_current_port_state(&mut self.bus, port, Some(device));
        }
    }

    /// Calls the cursor task that the guest has installed.
    pub fn fire_cursor_task(&mut self)
        requires
            old(self).wf(),
        ensures
            final(self)@ == old(self)@.cursor_fired(),
            final(self).wf(),
    {
        proof {
            reveal(RunnerView::cursor_fired);
        }
        if self.active_interrupt_callback.is_some() || self.cpu.get_sr() & 0x0700 >= 0x0100 {
            return;
        }
        let callback_addr: u32 = self.bus.read_long(J_CRSR_TASK);
        if callback_addr == 0 || callback_addr == CURSOR_TASK_NOOP_ADDR {
            return;
        }
        let t: u32 = ready_cursor_stub(&mut self.bus, self.cursor_task_trampoline, callback_addr);
        self.cursor_task_trampoline = t;
        self.inject_interrupt_callback(ActiveInterruptCallbackSource::CursorTask, t);
    }
}

} // verus!

use vstd::prelude::*;

use crate::cpu::Register;
use crate::events::PendingFileCompletion;
use crate::interrupts::{is_sound_interrupt_source, sound_source};
use crate::memory::group_memory_lengths;
use crate::runner::{ActiveInterruptCallbackSource, FixtureRunner, RunnerView};
use crate::sound::{PendingDoubleBackCallback, PendingSoundCallback, SoundView, DB_BUFFER_READY};
use crate::stubs::{
    doubleback_stub, file_stub, ready_doubleback_stub, ready_file_stub, ready_sound_file_stub, ready_sound_stub,
    sound_file_stub, sound_stub,
};
use crate::trap::{DispView, TrapDispatcher};

verus! {

broadcast use {group_memory_lengths, crate::trap::group_dispatcher_fields};

impl RunnerView {
    /// The state after one completed file request was published, and whether
    /// its completion routine was called: with the parameter block in A0 and
    /// the result in D0.
    #[verifier::opaque]
    pub open spec fn file_completed(self) -> (RunnerView, bool) {
        let queue = self.disp.pending_file_completions;
        if self.active is Some || queue.len() == 0 {
            (self, false)
        } else {
            let done = queue[0];
            let published = RunnerView {
                disp: DispView { pending_file_completions: queue.subrange(1, queue.len() as int), ..self.disp },
                bus: self.bus.word(done.parameter_block.wrapping_add(16), done.result as u16),
                ..self
            };
            if done.completion_addr == 0 {
                (published, false)
            } else {
                let (bus, t) = file_stub(published.bus, self.file_completion_trampoline, done.completion_addr);
                let called = RunnerView { bus, file_completion_trampoline: t, ..published }.interrupted(
                    ActiveInterruptCallbackSource::FileCompletion,
                    t,
                );
                (
                    RunnerView {
                        cpu: called.cpu.with(Register::A0, done.parameter_block).with(
                            Register::D0,
                            done.result as i32 as u32,
                        ),
                        ..called
                    },
                    true,
                )
            }
        }
    }

    /// The stack pointer inside a stub, once it has saved its registers.
    pub open spec fn stub_sp(self) -> u32 {
        self.cpu.sp().wrapping_sub(36)
    }

    /// The state after the oldest sound callback had its chance to run, and
    /// whether it was called: with its channel, and with its command where it
    /// has one.
    #[verifier::opaque]
    pub open spec fn sound_fired(self) -> (RunnerView, bool) {
        let queue = self.disp.sound.pending_sound_callbacks;
        if self.active is Some || queue.len() == 0 {
            (self, false)
        } else {
            let taken = RunnerView {
                disp: DispView {
                    sound: SoundView { pending_sound_callbacks: queue.remove(0), ..self.disp.sound },
                    ..self.disp
                },
                ..self
            };
            match queue[0] {
                PendingSoundCallback::Command { callback_addr, chan_ptr, cmd } => if callback_addr == 0 {
                    (taken, false)
                } else {
                    let (bus, t) = sound_stub(
                        self.bus,
                        self.sound_callback_trampoline,
                        self.stub_sp(),
                        chan_ptr,
                        callback_addr,
                        cmd,
                    );
                    (
                        RunnerView { bus, sound_callback_trampoline: t, ..taken }.interrupted(
                            ActiveInterruptCallbackSource::SoundCallback,
                            t,
                        ),
                        true,
                    )
                },
                PendingSoundCallback::FileCompletion { callback_addr, chan_ptr } => if callback_addr == 0 {
                    (taken, false)
                } else {
                    let (bus, t) = sound_file_stub(
                        self.bus,
                        self.sound_file_completion_trampoline,
                        self.stub_sp(),
                        chan_ptr,
                        callback_addr,
                    );
                    (
                        RunnerView { bus, sound_file_completion_trampoline: t, ..taken }.interrupted(
                            ActiveInterruptCallbackSource::SoundFileCompletion,
                            t,
                        ),
                        true,
                    )
                },
            }
        }
    }

    /// The state after the oldest refill request had its chance to run, and
    /// whether the application was called: with the channel and the buffer,
    /// whose ready flag is cleared first.
    #[verifier::opaque]
    pub open spec fn doubleback_fired(self) -> (RunnerView, bool) {
        let queue = self.disp.sound.pending_callbacks;
        if self.active is Some || queue.len() == 0 {
            (self, false)
        } else {
            let cb = queue[0];
            let buffer = self.bus.get_long(buffer_slot(cb.header_ptr, cb.exhausted_buffer_index));
            let at = buffer.wrapping_add(4);
            let taken = RunnerView {
                disp: DispView {
                    sound: SoundView { pending_callbacks: queue.remove(0), ..self.disp.sound },
                    ..self.disp
                },
                bus: if buffer == 0 { self.bus } else { self.bus.long(at, self.bus.get_long(at) & !DB_BUFFER_READY) },
                ..self
            };
            if cb.callback_addr == 0 {
                (taken, false)
            } else {
                let (bus, t) = doubleback_stub(
                    taken.bus,
                    self.sound_doubleback_trampoline,
                    self.stub_sp(),
                    cb.chan_ptr,
                    buffer,
                    cb.callback_addr,
                );
                (
                    RunnerView { bus, sound_doubleback_trampoline: t, ..taken }.interrupted(
                        ActiveInterruptCallbackSource::SoundDoubleBack,
                        t,
                    ),
                    true,
                )
            }
        }
    }

    /// Sound work waits: a sound callback runs, or one is queued.
    pub open spec fn sound_work_pending(self) -> bool {
        ||| self.active matches Some(a) && sound_source(a.source)
        ||| self.disp.sound.pending_sound_callbacks.len() > 0
        ||| self.disp.sound.pending_callbacks.len() > 0
    }
}

/// Where a double-buffer header keeps the pointer to buffer `index`.
pub open spec fn buffer_slot(header: u32, index: u8) -> u32 {
    header.wrapping_add(12).wrapping_add((index * 4) as u32)
}

impl FixtureRunner {

    /// Publishes one completed file request and calls its completion routine.
    pub fn fire_file_completion_callback(&mut self) -> (r: bool)
        requires
            old(self).wf(),
        ensures
            (final(self)@, r) == old(self)@.file_completed(),
            final(self).wf(),
    {
        proof {
            reveal(RunnerView::file_completed);
        }
        if self.active_interrupt_callback.is_some() {
            return false;
        }
        let completion: PendingFileCompletion = match self.dispatcher.take_file_completion() {
            Some(c) => c,
            None => return false,
        };
        self.bus.write_word(completion.parameter_block.wrapping_add(16), completion.result as u16);
        if completion.completion_addr == 0 {
            return false;
        }
        let t: u32 = ready_file_stub(&mut self.bus, self.file_completion_trampoline, completion.completion_addr);
        self.file_completion_trampoline = t;
        self.inject_interrupt_callback(ActiveInterruptCallbackSource::FileCompletion, t);
        self.cpu.write_reg(Register::A0, completion.parameter_block);
        self.cpu.write_reg(Register::D0, completion.result as i32 as u32);
        true
    }

    /// Calls the oldest pending sound callback.
    pub fn fire_sound_callbacks(&mut self) -> (r: bool)
        requires
            old(self).wf(),
        ensures
            (final(self)@, r) == old(self)@.sound_fired(),
            final(self).wf(),
    {
        proof {
            reveal(RunnerView::sound_fired);
        }
        if self.active_interrupt_callback.is_some() {
            return false;
        }
        let cb: PendingSoundCallback = match self.dispatcher.take_sound_callback() {
            Some(cb) => cb,
            None => return false,
        };
        let saved_regs_sp: u32 = self.cpu.read_reg(Register::A7).wrapping_sub(36);
        match cb {
            PendingSoundCallback::Command { callback_addr, chan_ptr, cmd } => {
                if callback_addr == 0 {
                    return false;
                }
                let t: u32 = ready_sound_stub(
                    &mut self.bus,
                    self.sound_callback_trampoline,
                    saved_regs_sp,
                    chan_ptr,
                    callback_addr,
                    cmd,
                );
                self.sound_callback_trampoline = t;
                self.inject_interrupt_callback(ActiveInterruptCallbackSource::SoundCallback, t);
                true
            },
            PendingSoundCallback::FileCompletion { callback_addr, chan_ptr } => {
                if callback_addr == 0 {
                    return false;
                }
                let t: u32 = ready_sound_file_stub(
                    &mut self.bus,
                    self.sound_file_completion_trampoline,
                    saved_regs_sp,
                    chan_ptr,
                    callback_addr,
                );
                self.sound_file_completion_trampoline = t;
                self.inject_interrupt_callback(ActiveInterruptCallbackSource::SoundFileCompletion, t);
                true
            },
        }
    }

    /// Asks the application for the oldest pending buffer refill.
    pub fn fire_sound_doubleback_callbacks(&mut self) -> (r: bool)
        requires
            old(self).wf(),
        ensures
            (final(self)@, r) == old(self)@.doubleback_fired(),
            final(self).wf(),
    {
        proof {
            reveal(RunnerView::doubleback_fired);
        }
        if self.active_interrupt_callback.is_some() {
            return false;
        }
        let cb: PendingDoubleBackCallback = match self.dispatcher.take_doubleback() {
            Some(cb) => cb,
            None => return false,
        };
        let slot: u32 = cb.header_ptr.wrapping_add(12).wrapping_add(cb.exhausted_buffer_index as u32 * 4);
        let buffer: u32 = self.bus.read_long(slot);
        if buffer != 0 {
            let at: u32 = buffer.wrapping_add(4);
            let flags: u32 = self.bus.read_long(at);
            self.bus.write_long(at, flags & !DB_BUFFER_READY);
        }
        if cb.callback_addr == 0 {
            return false;
        }
        let saved_regs_sp: u32 = self.cpu.read_reg(Register::A7).wrapping_sub(36);
        let t: u32 = ready_doubleback_stub(
            &mut self.bus,
            self.sound_doubleback_trampoline,
            saved_regs_sp,
            cb.chan_ptr,
            buffer,
            cb.callback_addr,
        );
        self.sound_doubleback_trampoline = t;
        self.inject_interrupt_callback(ActiveInterruptCallbackSource::SoundDoubleBack, t);
        true
    }

    /// Whether sound work waits.
    pub fn has_pending_sound_work(&self) -> (r: bool)
        ensures
            r == self@.sound_work_pending(),
    {
        proof {
            reveal(TrapDispatcher::view);
        }
        let running: bool = match self.active_interrupt_callback {
            Some(a) => is_sound_interrupt_source(a.source),
            None => false,
        };
        running || self.dispatcher.sound_manager.pending_sound_callbacks.len() > 0
            || self.dispatcher.sound_manager.pending_callbacks.len() > 0
    }
}

} // verus!

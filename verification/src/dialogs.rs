use vstd::prelude::*;

use crate::cpu::Register;
use crate::dialog::DialogView;
use crate::events::{first_actionable, QueuedEvent, NULL_EVENT, UPDATE_MASK};
use crate::globals::{MB_STATE, MENU_HOOK, TICKS};
use crate::memory::{group_memory_lengths, BusView, MacMemoryBus};
use crate::runner::{ActiveInterruptCallbackSource, FixtureRunner, RunnerView};
use crate::trap::{with_event_record, DispView, TrapDispatcher};

verus! {

broadcast use {group_memory_lengths, crate::trap::group_dispatcher_fields};

/// The stub that calls a draw procedure.
pub const DIALOG_DRAW_TRAMPOLINE: u32 = 0x0000_1200;
/// The stub that calls a filter procedure.
pub const DIALOG_FILTER_TRAMPOLINE: u32 = 0x0000_1240;
/// The event record that a filter procedure gets.
pub const DIALOG_FILTER_EVENT: u32 = 0x0000_1280;
/// The result of a filter procedure.
pub const DIALOG_FILTER_RESULT: u32 = 0x0000_1296;
/// The stub that calls the menu hook.
pub const MENU_HOOK_TRAMPOLINE: u32 = 0x0000_12A0;
/// Bytes below the stack that are cleared for a filter procedure.
pub const FILTER_STACK_CLEAR: u32 = 2048;

/// A word that procedures begin with: `LINK A6`, `MOVEM.L regs,-(SP)` or `JMP`.
pub open spec fn entry_word(w: u16) -> bool {
    w == 0x4E56 || w == 0x48E7 || w == 0x4EF9 || w == 0x4EFA
}

/// Code that saves D0-D3/A0-A3, pushes a long (offset 6) and a word (offset 12),
/// calls a procedure (offset 16), sets the stack pointer back (offset 22),
/// restores the registers and returns.
pub open spec fn draw_code(b: BusView, t: u32) -> BusView {
    b.word(t, 0x48E7).word(t.wrapping_add(2), 0xF0F0).word(t.wrapping_add(4), 0x2F3C).word(
        t.wrapping_add(10),
        0x3F3C,
    ).word(t.wrapping_add(14), 0x4EB9).word(t.wrapping_add(20), 0x4FF9).word(t.wrapping_add(26), 0x4CDF).word(
        t.wrapping_add(28),
        0x0F0F,
    ).word(t.wrapping_add(30), 0x4E75)
}

/// Memory with the draw stub ready to call `addr` for an item of a dialog, and
/// the stub's address.
#[verifier::opaque]
pub open spec fn draw_stub(b: BusView, t: u32, sp: u32, dialog: u32, item: i16, addr: u32) -> (BusView, u32) {
    let (b, t) = if t == 0 {
        (draw_code(b, DIALOG_DRAW_TRAMPOLINE), DIALOG_DRAW_TRAMPOLINE)
    } else {
        (b, t)
    };
    (
        b.long(t.wrapping_add(6), dialog).word(t.wrapping_add(12), item as u16).long(t.wrapping_add(16), addr).long(
            t.wrapping_add(22),
            sp,
        ),
        t,
    )
}

/// Code that saves D0-D3/A0-A3, calls a procedure (offset 6), sets the stack
/// pointer back (offset 12), restores the registers and returns.
pub open spec fn hook_code(b: BusView, t: u32) -> BusView {
    b.word(t, 0x48E7).word(t.wrapping_add(2), 0xF0F0).word(t.wrapping_add(4), 0x4EB9).word(
        t.wrapping_add(10),
        0x4FF9,
    ).word(t.wrapping_add(16), 0x4CDF).word(t.wrapping_add(18), 0x0F0F).word(t.wrapping_add(20), 0x4E75)
}

/// Memory with the menu stub ready to call `addr`, and the stub's address.
#[verifier::opaque]
pub open spec fn hook_stub(b: BusView, t: u32, sp: u32, addr: u32) -> (BusView, u32) {
    let (b, t) = if t == 0 {
        (hook_code(b, MENU_HOOK_TRAMPOLINE), MENU_HOOK_TRAMPOLINE)
    } else {
        (b, t)
    };
    (b.long(t.wrapping_add(6), addr).long(t.wrapping_add(12), sp), t)
}

/// Code that saves D0-D3/A0-A3, makes room for a result, pushes three longs
/// (offsets 8, 14 and 20), calls a function (offset 26), stores its result
/// (address at offset 32), sets the stack pointer back (offset 38), restores the
/// registers and returns.
pub open spec fn filter_code(b: BusView, t: u32) -> BusView {
    b.word(t, 0x48E7).word(t.wrapping_add(2), 0xF0F0).word(t.wrapping_add(4), 0x4267).word(
        t.wrapping_add(6),
        0x2F3C,
    ).word(t.wrapping_add(12), 0x2F3C).word(t.wrapping_add(18), 0x2F3C).word(t.wrapping_add(24), 0x4EB9).word(
        t.wrapping_add(30),
        0x33D7,
    ).word(t.wrapping_add(36), 0x2E7C).word(t.wrapping_add(42), 0x4CDF).word(t.wrapping_add(44), 0x0F0F).word(
        t.wrapping_add(46),
        0x4E75,
    )
}

/// What a call of a filter procedure needs.
pub struct FilterCall {
    pub dialog: u32,
    pub item_hit: u32,
    pub filter: u32,
    pub event_ptr: u32,
    pub result_ptr: u32,
    /// The stack pointer once the stub has saved its registers.
    pub sp: u32,
}

/// Memory with the filter stub ready, the stack below cleared, and the stub's
/// address.
#[verifier::opaque]
pub open spec fn filter_stub(b: BusView, t: u32, c: FilterCall) -> (BusView, u32) {
    let (b, t) = if t == 0 {
        (filter_code(b, DIALOG_FILTER_TRAMPOLINE), DIALOG_FILTER_TRAMPOLINE)
    } else {
        (b, t)
    };
    let b = b.long(t.wrapping_add(8), c.dialog).long(t.wrapping_add(14), c.event_ptr).long(
        t.wrapping_add(20),
        c.item_hit,
    ).long(t.wrapping_add(26), c.filter).long(t.wrapping_add(32), c.result_ptr);
    let b = b.filled(c.sp.wrapping_sub(50).wrapping_sub(FILTER_STACK_CLEAR), FILTER_STACK_CLEAR, 0);
    (b.long(t.wrapping_add(38), c.sp), t)
}

impl DispView {
    /// The event that `ModalDialog` hands to the filter procedure, and whether
    /// it is the dialog's own update: the first queued event of a kind that it
    /// handles, then the update (if that is in order), then a null event.
    pub open spec fn filter_event(self, dialog: u32, update_in_order: bool) -> (QueuedEvent, bool) {
        match first_actionable(self.event_queue, 0) {
            Some(i) => (self.event_queue[i], false),
            None => match self.update_event(UPDATE_MASK) {
                Some(e) if e.message == dialog && update_in_order => (e, true),
                _ => (self.event_here(NULL_EVENT, 0), false),
            },
        }
    }

    /// The state when the filter procedure of dialog `d` is called with event
    /// `ev` at tick `ticks`.
    pub open spec fn filtering(self, d: DialogView, ev: QueuedEvent, ticks: u32) -> DispView {
        DispView {
            event_queue: match first_actionable(self.event_queue, 0) {
                Some(i) => self.event_queue.remove(i),
                None => self.event_queue,
            },
            dialog: Some(DialogView { last_filter_event: Some(ev), rendered_pixels_final: false, ..d }),
            dialog_filter_result_addr: self.filter_result(),
            tick_count: ticks,
            current_port: d.dialog_ptr,
            ..self
        }
    }

    /// Where the result of a filter procedure goes.
    pub open spec fn filter_result(self) -> u32 {
        if self.dialog_filter_result_addr == 0 {
            DIALOG_FILTER_RESULT
        } else {
            self.dialog_filter_result_addr
        }
    }
}

impl RunnerView {
    pub open spec fn is_entry(self, addr: u32) -> bool {
        addr != 0 && entry_word(self.bus.get_word(addr))
    }

    /// Where a procedure pointer leads: to the address itself, or from A5.
    pub open spec fn proc_entry(self, addr: u32) -> Option<u32> {
        let based = self.cpu.dar[13].wrapping_add(addr);
        if self.is_entry(addr) {
            Some(addr)
        } else if self.is_entry(based) {
            Some(based)
        } else {
            None
        }
    }

    /// The state after a draw procedure was called for an item of a dialog, and
    /// whether it was.
    #[verifier::opaque]
    pub open spec fn draw_called(self, addr: u32, item: i16, dialog: u32, modeless: bool) -> (RunnerView, bool) {
        match self.proc_entry(addr) {
            Some(entry) if self.active is None && addr != 0 => {
                let (bus, t) = draw_stub(self.bus, self.dialog_draw_trampoline, self.stub_sp(), dialog, item, entry);
                let disp = DispView {
                    current_port: dialog,
                    active_modeless_dialog_draw_proc: if modeless {
                        Some(dialog)
                    } else {
                        self.disp.active_modeless_dialog_draw_proc
                    },
                    ..self.disp
                };
                (
                    RunnerView { bus, disp, dialog_draw_trampoline: t, ..self }.interrupted(
                        ActiveInterruptCallbackSource::DialogDrawProc,
                        t,
                    ),
                    true,
                )
            },
            _ => (self, false),
        }
    }

    /// The state after the queued draw procedures of modeless dialogs had their
    /// chance: the first that can be called is, and those before it are dropped.
    #[verifier::opaque]
    pub open spec fn modeless_drawn(self) -> (RunnerView, bool)
        decreases self.disp.modeless_dialog_draw_proc_queue.len(),
    {
        let queue = self.disp.modeless_dialog_draw_proc_queue;
        if self.active is Some || queue.len() == 0 {
            (self, false)
        } else {
            let (dialog, addr, item) = queue[0];
            let popped = RunnerView {
                disp: DispView {
                    modeless_dialog_draw_proc_queue: queue.subrange(1, queue.len() as int),
                    ..self.disp
                },
                ..self
            };
            let (s, called) = popped.draw_called(addr, item, dialog, true);
            if called {
                (s, true)
            } else {
                popped.modeless_drawn()
            }
        }
    }

    /// The dialog in progress, while its draw procedures are still being called.
    pub open spec fn drawing_dialog(self) -> Option<u32> {
        match self.disp.dialog {
            Some(d) if !d.draw_procs_done => Some(d.dialog_ptr),
            _ => None,
        }
    }

    /// The state after the next draw procedure of the dialog in progress had its
    /// chance, and whether it was called; with none left the drawing is done.
    #[verifier::opaque]
    pub open spec fn modal_drawn(self) -> (RunnerView, bool) {
        match self.disp.dialog {
            Some(d) => {
                let queue = d.draw_proc_queue;
                if queue.len() == 0 {
                    let done = DialogView { draw_procs_done: true, ..d };
                    (RunnerView { disp: DispView { dialog: Some(done), ..self.disp }, ..self }, false)
                } else {
                    let rest = DialogView { draw_proc_queue: queue.subrange(1, queue.len() as int), ..d };
                    RunnerView { disp: DispView { dialog: Some(rest), ..self.disp }, ..self }.draw_called(
                        queue[0].0,
                        queue[0].1,
                        d.dialog_ptr,
                        false,
                    )
                }
            },
            None => (self, false),
        }
    }

    /// The state after the next draw procedure had its chance, and whether one
    /// was called.
    pub open spec fn drawn(self) -> (RunnerView, bool) {
        if self.active is Some {
            (self, false)
        } else if self.drawing_dialog() is Some {
            self.modal_drawn()
        } else {
            self.modeless_drawn()
        }
    }

    /// The state after the menu hook had its chance, and whether it was called:
    /// while a menu is tracked and the mouse button is down.
    pub open spec fn hook_called(self, opcode: u16) -> (RunnerView, bool) {
        match self.proc_entry(self.bus.get_long(MENU_HOOK)) {
            Some(entry) if self.active is None && opcode & 0xFBFF == 0xA93D && self.disp.menu_tracking
                && self.bus.get_byte(MB_STATE) == 0 => {
                let (bus, t) = hook_stub(self.bus, self.menu_hook_trampoline, self.stub_sp(), entry);
                (
                    RunnerView { bus, menu_hook_trampoline: t, ..self }.interrupted(
                        ActiveInterruptCallbackSource::MenuHook,
                        t,
                    ),
                    true,
                )
            },
            _ => (self, false),
        }
    }

    /// The filter procedure of `dialog` has had a null event in this tick.
    pub open spec fn null_event_sent(self, dialog: u32) -> bool {
        self.dialog_filter_last_null_event_tick == Some((dialog, self.disp.tick_count))
    }

    /// The filter procedure of `dialog` has had its update in this tick.
    pub open spec fn update_event_sent(self, dialog: u32) -> bool {
        self.dialog_filter_last_update_event_tick == Some((dialog, dialog, self.disp.tick_count))
    }

    /// An event other than the null event waits for the filter procedure.
    pub open spec fn filter_event_pending(self, dialog: u32) -> bool {
        ||| first_actionable(self.disp.event_queue, 0) is Some
        ||| self.disp.update_event(UPDATE_MASK) matches Some(e) && e.message == dialog && !self.update_event_sent(dialog)
    }

    /// The filter procedure is due: the dialog is drawn, the last event was
    /// dealt with, and there is an event for it. Null events come once in a tick
    /// and not while the mouse is down over an item.
    pub open spec fn filter_due(self) -> bool {
        &&& self.disp.dialog matches Some(d)
        &&& d.filter_proc != 0
        &&& d.draw_procs_done
        &&& d.last_filter_event is None
        &&& self.filter_event_pending(d.dialog_ptr) || !(self.disp.mouse_on_dialog_button()
            || self.disp.mouse_on_plain_user_item() || self.disp.shell.user_item_mouse_down
            || self.null_event_sent(d.dialog_ptr))
    }

    /// The state after the filter procedure of the dialog was called, and
    /// whether it was.
    pub open spec fn filter_called(self) -> (RunnerView, bool) {
        match self.disp.dialog {
            Some(d) if d.filter_proc != 0 && entry_word(self.bus.get_word(d.filter_proc)) => (
                self.filter_entered(d),
                true,
            ),
            _ => (self, false),
        }
    }

    /// The state when the filter procedure of `d` begins.
    pub open spec fn filter_entered(self, d: DialogView) -> RunnerView {
        let ticks = self.bus.word(self.disp.filter_result(), 0).get_long(TICKS);
        let (ev, is_update) = self.disp.filter_event(d.dialog_ptr, !self.update_event_sent(d.dialog_ptr));
        let event_ptr = if self.dialog_filter_event == 0 { DIALOG_FILTER_EVENT } else { self.dialog_filter_event };
        let call = FilterCall {
            dialog: d.dialog_ptr,
            item_hit: d.item_hit_ptr,
            filter: d.filter_proc,
            event_ptr,
            result_ptr: self.disp.filter_result(),
            sp: self.stub_sp(),
        };
        let (bus, t) = filter_stub(
            with_event_record(self.bus.word(self.disp.filter_result(), 0), event_ptr, ev, ticks),
            self.dialog_filter_trampoline,
            call,
        );
        RunnerView {
            bus,
            disp: self.disp.filtering(d, ev, ticks),
            dialog_filter_event: event_ptr,
            dialog_filter_trampoline: t,
            dialog_filter_last_null_event_tick: if ev.what == NULL_EVENT { Some((d.dialog_ptr, ticks)) } else { None },
            dialog_filter_last_update_event_tick: if is_update {
                Some((d.dialog_ptr, d.dialog_ptr, ticks))
            } else {
                self.dialog_filter_last_update_event_tick
            },
            ..self
        }.interrupted(ActiveInterruptCallbackSource::DialogFilterProc, t)
    }
}

fn ready_draw_stub(bus: &mut MacMemoryBus, t: u32, sp: u32, dialog: u32, item: i16, addr: u32) -> (r: u32)
    ensures
        (final(bus)@, r) == draw_stub(old(bus)@, t, sp, dialog, item, addr),
        old(bus).probe_wf() ==> final(bus).probe_wf(),
        final(bus)@.mem.len() == old(bus)@.mem.len(),
{
    proof {
        reveal(draw_stub);
    }
    let mut stub: u32 = t;
    if stub == 0 {
        stub = DIALOG_DRAW_TRAMPOLINE;
        bus.write_word(stub, 0x48E7);
        bus.write_word(stub.wrapping_add(2), 0xF0F0);
        bus.write_word(stub.wrapping_add(4), 0x2F3C);
        bus.write_word(stub.wrapping_add(10), 0x3F3C);
        bus.write_word(stub.wrapping_add(14), 0x4EB9);
        bus.write_word(stub.wrapping_add(20), 0x4FF9);
        bus.write_word(stub.wrapping_add(26), 0x4CDF);
        bus.write_word(stub.wrapping_add(28), 0x0F0F);
        bus.write_word(stub.wrapping_add(30), 0x4E75);
    }
    bus.write_long(stub.wrapping_add(6), dialog);
    bus.write_word(stub.wrapping_add(12), item as u16);
    bus.write_long(stub.wrapping_add(16), addr);
    bus.write_long(stub.wrapping_add(22), sp);
    stub
}

fn ready_hook_stub(bus: &mut MacMemoryBus, t: u32, sp: u32, addr: u32) -> (r: u32)
    ensures
        (final(bus)@, r) == hook_stub(old(bus)@, t, sp, addr),
        old(bus).probe_wf() ==> final(bus).probe_wf(),
        final(bus)@.mem.len() == old(bus)@.mem.len(),
{
    proof {
        reveal(hook_stub);
    }
    let mut stub: u32 = t;
    if stub == 0 {
        stub = MENU_HOOK_TRAMPOLINE;
        bus.write_word(stub, 0x48E7);
        bus.write_word(stub.wrapping_add(2), 0xF0F0);
        bus.write_word(stub.wrapping_add(4), 0x4EB9);
        bus.write_word(stub.wrapping_add(10), 0x4FF9);
        bus.write_word(stub.wrapping_add(16), 0x4CDF);
        bus.write_word(stub.wrapping_add(18), 0x0F0F);
        bus.write_word(stub.wrapping_add(20), 0x4E75);
    }
    bus.write_long(stub.wrapping_add(6), addr);
    bus.write_long(stub.wrapping_add(12), sp);
    stub
}

fn write_filter_code(bus: &mut MacMemoryBus, t: u32)
    ensures
        final(bus)@ == filter_code(old(bus)@, t),
        old(bus).probe_wf() ==> final(bus).probe_wf(),
        final(bus)@.mem.len() == old(bus)@.mem.len(),
{
    bus.write_word(t, 0x48E7);
    bus.write_word(t.wrapping_add(2), 0xF0F0);
    bus.write_word(t.wrapping_add(4), 0x4267);
    bus.write_word(t.wrapping_add(6), 0x2F3C);
    bus.write_word(t.wrapping_add(12), 0x2F3C);
    bus.write_word(t.wrapping_add(18), 0x2F3C);
    bus.write_word(t.wrapping_add(24), 0x4EB9);
    bus.write_word(t.wrapping_add(30), 0x33D7);
    bus.write_word(t.wrapping_add(36), 0x2E7C);
    bus.write_word(t.wrapping_add(42), 0x4CDF);
    bus.write_word(t.wrapping_add(44), 0x0F0F);
    bus.write_word(t.wrapping_add(46), 0x4E75);
}

fn ready_filter_stub(bus: &mut MacMemoryBus, t: u32, c: FilterCall) -> (r: u32)
    ensures
        (final(bus)@, r) == filter_stub(old(bus)@, t, c),
        old(bus).probe_wf() ==> final(bus).probe_wf(),
        final(bus)@.mem.len() == old(bus)@.mem.len(),
{
    proof {
        reveal(filter_stub);
    }
    let mut stub: u32 = t;
    if stub == 0 {
        stub = DIALOG_FILTER_TRAMPOLINE;
        write_filter_code(bus, stub);
    }
    bus.write_long(stub.wrapping_add(8), c.dialog);
    bus.write_long(stub.wrapping_add(14), c.event_ptr);
    bus.write_long(stub.wrapping_add(20), c.item_hit);
    bus.write_long(stub.wrapping_add(26), c.filter);
    bus.write_long(stub.wrapping_add(32), c.result_ptr);
    bus.fill_bytes(c.sp.wrapping_sub(50).wrapping_sub(FILTER_STACK_CLEAR), FILTER_STACK_CLEAR, 0);
    bus.write_long(stub.wrapping_add(38), c.sp);
    stub
}

impl TrapDispatcher {
    /// Ends the drawing of a modeless dialog.
    pub fn finalize_dialog_draw_procs_if_idle(&mut self)
        ensures
            final(self)@ == (DispView { active_modeless_dialog_draw_proc: None, ..old(self)@ }),
            old(self).wf() ==> final(self).wf(),
    {
        proof {
            reveal(TrapDispatcher::view);
        }
        self.active_modeless_dialog_draw_proc = None;
    }

    /// Whether a draw procedure of a modeless dialog runs.
    pub fn draws_modeless_dialog(&self) -> (r: bool)
        ensures
            r == (self@.active_modeless_dialog_draw_proc is Some),
    {
        proof {
            reveal(TrapDispatcher::view);
        }
        self.active_modeless_dialog_draw_proc.is_some()
    }

    fn find_actionable(&self) -> (r: Option<usize>)
        ensures
            r is None ==> first_actionable(self@.event_queue, 0) is None,
            r matches Some(i) ==> i < self@.event_queue.len() && first_actionable(self@.event_queue, 0) == Some(
                i as int,
            ),
    {
        proof {
            reveal(TrapDispatcher::view);
        }
        let mut i: usize = 0;
        while i < self.event_queue.len()
            invariant
                i <= self.event_queue.len(),
                first_actionable(self@.event_queue, 0) == first_actionable(self@.event_queue, i as int),
            decreases self.event_queue.len() - i,
        {
            proof {
                reveal(TrapDispatcher::view);
            }
            let what: u16 = self.event_queue[i].what;
            if what == 1 || what == 2 || what == 3 || what == 4 || what == 6 {
                return Some(i);
            }
            i += 1;
        }
        None
    }

    /// Begins a call of the filter procedure: takes the event for it, and says
    /// whether that is the dialog's own update.
    fn begin_filter_call(&mut self, update_in_order: bool, ticks: u32) -> (r: (QueuedEvent, bool))
        requires
            old(self)@.dialog is Some,
        ensures
            r == old(self)@.filter_event(old(self)@.dialog->0.dialog_ptr, update_in_order),
            final(self)@ == old(self)@.filtering(old(self)@.dialog->0, r.0, ticks),
            old(self).wf() ==> final(self).wf(),
    {
        proof {
            reveal(TrapDispatcher::view);
        }
        let dialog: u32 = match &self.dialog_tracking {
            Some(d) => d.dialog_ptr,
            None => 0,
        };
        let mut picked: (QueuedEvent, bool) = (self.make_event(NULL_EVENT, 0), false);
        match self.find_actionable() {
            Some(i) => {
                picked.0 = self.event_queue[i];
                self.event_queue.remove(i);
            },
            None => {
                if let Some(e) = self.pending_update_event(UPDATE_MASK) {
                    if e.message == dialog && update_in_order {
                        picked = (e, true);
                    }
                }
            },
        }
        if let Some(d) = &mut self.dialog_tracking {
            d.last_filter_event = Some(picked.0);
            d.rendered_pixels_final = false;
        }
        if self.dialog_filter_result_addr == 0 {
            self.dialog_filter_result_addr = DIALOG_FILTER_RESULT;
        }
        self.tick_count = ticks;
        self.current_port = dialog;
        picked
    }

    /// Takes the next draw procedure of the dialog in progress; without one, the
    /// dialog is drawn.
    fn take_draw_proc(&mut self) -> (r: Option<(u32, i16)>)
        requires
            old(self)@.dialog is Some,
        ensures
            ({
                let d = old(self)@.dialog->0;
                let q = d.draw_proc_queue;
                &&& r is None <==> q.len() == 0
                &&& r is None ==> final(self)@ == (DispView {
                    dialog: Some(DialogView { draw_procs_done: true, ..d }),
                    ..old(self)@
                })
                &&& r matches Some(p) ==> p == q[0] && final(self)@ == (DispView {
                    dialog: Some(DialogView { draw_proc_queue: q.subrange(1, q.len() as int), ..d }),
                    ..old(self)@
                })
            }),
            old(self).wf() ==> final(self).wf(),
    {
        proof {
            reveal(TrapDispatcher::view);
        }
        match &mut self.dialog_tracking {
            Some(d) => {
                let p: Option<(u32, i16)> = d.draw_proc_queue.pop_front();
                if p.is_none() {
                    d.draw_procs_done = true;
                }
                p
            },
            None => None,
        }
    }

    /// Takes the next draw procedure of modeless dialogs.
    fn take_modeless_draw_proc(&mut self) -> (r: Option<(u32, u32, i16)>)
        ensures
            ({
                let q = old(self)@.modeless_dialog_draw_proc_queue;
                &&& r is None <==> q.len() == 0
                &&& r is None ==> final(self)@ == old(self)@
                &&& r matches Some(p) ==> p == q[0] && final(self)@ == (DispView {
                    modeless_dialog_draw_proc_queue: q.subrange(1, q.len() as int),
                    ..old(self)@
                })
            }),
            old(self).wf() ==> final(self).wf(),
    {
        proof {
            reveal(TrapDispatcher::view);
        }
        self.modeless_dialog_draw_proc_queue.pop_front()
    }

    /// Makes a dialog the current port for its draw procedure.
    fn begin_draw_call(&mut self, dialog: u32, modeless: bool)
        ensures
            final(self)@ == (DispView {
                current_port: dialog,
                active_modeless_dialog_draw_proc: if modeless {
                    Some(dialog)
                } else {
                    old(self)@.active_modeless_dialog_draw_proc
                },
                ..old(self)@
            }),
            old(self).wf() ==> final(self).wf(),
    {
        proof {
            reveal(TrapDispatcher::view);
        }
        self.current_port = dialog;
        if modeless {
            self.active_modeless_dialog_draw_proc = Some(dialog);
        }
    }
}

impl FixtureRunner {
    fn looks_like_dialog_proc_entry(&self, addr: u32) -> (r: bool)
        ensures
            r == self@.is_entry(addr),
    {
        if addr == 0 {
            return false;
        }
        let entry: u16 = self.bus.read_word(addr);
        entry == 0x4E56 || entry == 0x48E7 || entry == 0x4EF9 || entry == 0x4EFA
    }

    fn resolve_dialog_draw_proc_addr(&self, proc_addr: u32) -> (r: Option<u32>)
        requires
            self@.cpu.dar.len() == 16,
        ensures
            r == self@.proc_entry(proc_addr),
    {
        let a5: u32 = self.cpu.read_reg(Register::A5);
        if self.looks_like_dialog_proc_entry(proc_addr) {
            return Some(proc_addr);
        }
        let a5_relative: u32 = a5.wrapping_add(proc_addr);
        if self.looks_like_dialog_proc_entry(a5_relative) {
            Some(a5_relative)
        } else {
            None
        }
    }

    /// Calls a draw procedure for an item of a dialog, where it is code.
    pub fn inject_dialog_draw_proc(&mut self, proc_addr: u32, item_no: i16, dialog_ptr: u32, modeless: bool) -> (r: bool)
        requires
            old(self).wf(),
        ensures
            (final(self)@, r) == old(self)@.draw_called(proc_addr, item_no, dialog_ptr, modeless),
            final(self).wf(),
    {
        proof {
            reveal(RunnerView::draw_called);
        }
        if self.active_interrupt_callback.is_some() || proc_addr == 0 {
            return false;
        }
        let call_addr: u32 = match self.resolve_dialog_draw_proc_addr(proc_addr) {
            Some(a) => a,
            None => return false,
        };
        let sp: u32 = self.cpu.read_reg(Register::A7).wrapping_sub(36);
        let t: u32 = ready_draw_stub(&mut self.bus, self.dialog_draw_trampoline, sp, dialog_ptr, item_no, call_addr);
        self.dialog_draw_trampoline = t;
        self.dispatcher.begin_draw_call(dialog_ptr, modeless);
        self.inject_interrupt_callback(ActiveInterruptCallbackSource::DialogDrawProc, t);
        true
    }

    /// Calls the first queued draw procedure of a modeless dialog that can be
    /// called; those before it are dropped.
    pub fn fire_modeless_dialog_draw_proc(&mut self) -> (r: bool)
        requires
            old(self).wf(),
        ensures
            (final(self)@, r) == old(self)@.modeless_drawn(),
            final(self).wf(),
    {
        proof {
            reveal(RunnerView::modeless_drawn);
        }
        while self.active_interrupt_callback.is_none()
            invariant
                self.wf(),
                old(self)@.modeless_drawn() == self@.modeless_drawn(),
            decreases self.dispatcher.modeless_dialog_draw_proc_queue@.len(),
        {
            proof {
                reveal(RunnerView::modeless_drawn);
            }
            let (dialog_ptr, proc_addr, item_no): (u32, u32, i16) = match self.dispatcher.take_modeless_draw_proc() {
                Some(p) => p,
                None => return false,
            };
            let ghost popped = self@;
            if self.inject_dialog_draw_proc(proc_addr, item_no, dialog_ptr, true) {
                return true;
            }
            assert(self@ == popped) by {
                reveal(RunnerView::draw_called);
            }
        }
        false
    }

    fn fire_modal_dialog_draw_proc(&mut self, dialog_ptr: u32) -> (r: bool)
        requires
            old(self).wf(),
            old(self)@.drawing_dialog() == Some(dialog_ptr),
        ensures
            (final(self)@, r) == old(self)@.modal_drawn(),
            final(self).wf(),
    {
        proof {
            reveal(RunnerView::modal_drawn);
        }
        match self.dispatcher.take_draw_proc() {
            Some((proc_addr, item_no)) => self.inject_dialog_draw_proc(proc_addr, item_no, dialog_ptr, false),
            None => false,
        }
    }

    /// Calls the next draw procedure of the dialog in progress, or of a modeless
    /// dialog.
    pub fn fire_dialog_draw_procs(&mut self) -> (r: bool)
        requires
            old(self).wf(),
        ensures
            (final(self)@, r) == old(self)@.drawn(),
            final(self).wf(),
    {
        if self.active_interrupt_callback.is_some() {
            return false;
        }
        let in_progress: Option<u32> = match &self.dispatcher.dialog_tracking {
            Some(d) => if d.draw_procs_done { None } else { Some(d.dialog_ptr) },
            None => None,
        };
        match in_progress {
            Some(dialog_ptr) => self.fire_modal_dialog_draw_proc(dialog_ptr),
            None => self.fire_modeless_dialog_draw_proc(),
        }
    }

    /// Calls the menu hook while a menu is tracked.
    pub fn fire_menu_hook_proc(&mut self, opcode: u16) -> (r: bool)
        requires
            old(self).wf(),
        ensures
            (final(self)@, r) == old(self)@.hook_called(opcode),
            final(self).wf(),
    {
        if self.active_interrupt_callback.is_some() || (opcode & 0xFBFF) != 0xA93D {
            return false;
        }
        if !self.dispatcher.is_menu_tracking() || self.bus.read_byte(MB_STATE) != 0 {
            return false;
        }
        let hook_addr: u32 = self.bus.read_long(MENU_HOOK);
        let call_addr: u32 = match self.resolve_dialog_draw_proc_addr(hook_addr) {
            Some(a) => a,
            None => return false,
        };
        let sp: u32 = self.cpu.read_reg(Register::A7).wrapping_sub(36);
        let t: u32 = ready_hook_stub(&mut self.bus, self.menu_hook_trampoline, sp, call_addr);
        self.menu_hook_trampoline = t;
        self.inject_interrupt_callback(ActiveInterruptCallbackSource::MenuHook, t);
        true
    }

    /// Whether the filter procedure of the dialog has had a null event in this
    /// tick.
    pub fn dialog_filter_null_event_already_sent_this_tick(&self, dialog_ptr: u32) -> (r: bool)
        ensures
            r == self@.null_event_sent(dialog_ptr),
    {
        match self.dialog_filter_last_null_event_tick {
            Some((d, t)) => d == dialog_ptr && t == self.dispatcher.tick_count,
            None => false,
        }
    }

    fn update_event_already_sent(&self, dialog_ptr: u32) -> (r: bool)
        ensures
            r == self@.update_event_sent(dialog_ptr),
    {
        match self.dialog_filter_last_update_event_tick {
            Some((d, w, t)) => d == dialog_ptr && w == dialog_ptr && t == self.dispatcher.tick_count,
            None => false,
        }
    }

    /// Whether an event other than the null event waits for the filter procedure.
    pub fn dialog_filter_has_real_event_pending(&self, dialog_ptr: u32) -> (r: bool)
        ensures
            r == self@.filter_event_pending(dialog_ptr),
    {
        if self.dispatcher.find_actionable().is_some() {
            return true;
        }
        match self.dispatcher.pending_update_event(UPDATE_MASK) {
            Some(e) => e.message == dialog_ptr && !self.update_event_already_sent(dialog_ptr),
            None => false,
        }
    }

    /// Whether the filter procedure of the dialog in progress is due.
    pub fn should_fire_dialog_filter_proc(&self) -> (r: bool)
        ensures
            r == self@.filter_due(),
    {
        let dialog_ptr: u32 = match &self.dispatcher.dialog_tracking {
            Some(d) => {
                if d.filter_proc == 0 || !d.draw_procs_done || d.last_filter_event.is_some() {
                    return false;
                }
                d.dialog_ptr
            },
            None => return false,
        };
        if self.dialog_filter_has_real_event_pending(dialog_ptr) {
            return true;
        }
        if self.dispatcher.mouse_down_over_dialog_button() || self.dispatcher.mouse_down_over_dialog_plain_user_item()
            || self.dispatcher.pending_dialog_plain_user_item_mouse_down() {
            return false;
        }
        match self.dialog_filter_last_null_event_tick {
            Some((d, t)) => !(d == dialog_ptr && t == self.dispatcher.tick_count),
            None => true,
        }
    }

    /// Calls the filter procedure of the dialog in progress, where it is code.
    pub fn fire_dialog_filter_proc(&mut self) -> (r: bool)
        requires
            old(self).wf(),
        ensures
            (final(self)@, r) == old(self)@.filter_called(),
            final(self).wf(),
    {
        let (filter_proc, dialog_ptr, item_hit_ptr): (u32, u32, u32) = match &self.dispatcher.dialog_tracking {
            Some(d) => (d.filter_proc, d.dialog_ptr, d.item_hit_ptr),
            None => return false,
        };
        if filter_proc == 0 {
            return false;
        }
        if !self.looks_like_dialog_proc_entry(filter_proc) {
            return false;
        }
        self.enter_filter_proc(filter_proc, dialog_ptr, item_hit_ptr);
        true
    }

    fn enter_filter_proc(&mut self, filter_proc: u32, dialog_ptr: u32, item_hit_ptr: u32)
        requires
            old(self).wf(),
            old(self)@.disp.dialog matches Some(d) && d.filter_proc == filter_proc && d.dialog_ptr == dialog_ptr
                && d.item_hit_ptr == item_hit_ptr,
        ensures
            final(self)@ == old(self)@.filter_entered(old(self)@.disp.dialog->0),
            final(self).wf(),
    {
        let update_in_order: bool = !self.update_event_already_sent(dialog_ptr);
        let event_ptr: u32 = if self.dialog_filter_event == 0 { DIALOG_FILTER_EVENT } else { self.dialog_filter_event };
        let result_ptr: u32 = if self.dispatcher.dialog_filter_result_addr == 0 {
            DIALOG_FILTER_RESULT
        } else {
            self.dispatcher.dialog_filter_result_addr
        };
        let sp: u32 = self.cpu.read_reg(Register::A7).wrapping_sub(36);
        self.bus.write_word(result_ptr, 0);
        let ticks: u32 = self.bus.read_long(TICKS);
        let (ev, is_update): (QueuedEvent, bool) = self.dispatcher.begin_filter_call(update_in_order, ticks);
        self.dispatcher.write_event_record(&mut self.bus, event_ptr, ev);
        let call: FilterCall = FilterCall {
            dialog: dialog_ptr,
            item_hit: item_hit_ptr,
            filter: filter_proc,
            event_ptr,
            result_ptr,
            sp,
        };
        let t: u32 = ready_filter_stub(&mut self.bus, self.dialog_filter_trampoline, call);
        self.dialog_filter_event = event_ptr;
        self.dialog_filter_trampoline = t;
        self.dialog_filter_last_null_event_tick = if ev.what == NULL_EVENT { Some((dialog_ptr, ticks)) } else { None };
        if is_update {
            self.dialog_filter_last_update_event_tick = Some((dialog_ptr, dialog_ptr, ticks));
        }
        self.inject_interrupt_callback(ActiveInterruptCallbackSource::DialogFilterProc, t);
    }
}

} // verus!

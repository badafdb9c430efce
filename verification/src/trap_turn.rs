use vstd::prelude::*;

use crate::cpu::Register;
use crate::events::QueuedEvent;
use crate::globals::TICKS;
use crate::memory::group_memory_lengths;
use crate::policy::{
    canonical_trap_number, event_manager_yield_trap, event_yield, freezes_ticks, hle_trap_extra_tick_cost,
    modaldialog_refire_is_noop, spin_gate, spin_wait_fastfwd_gate, tracking_refire_should_freeze_ticks, trap_cost,
    trap_number,
};
use crate::runner::{FixtureRunner, RunnerView};
use crate::slice::{Flow, SliceOrder};
use crate::trap::{bumped, DispView, Error, TrapDispatcher};
use crate::traps::{
    event_reply, popped, pt_in_rect, served, write_pt_in_rect, TRAP_EVENT_AVAIL, TRAP_EXIT_TO_SHELL, TRAP_LAUNCH,
    TRAP_MODAL_DIALOG, TRAP_PT_IN_RECT, TRAP_TICK_COUNT,
};

verus! {

broadcast use {group_memory_lengths, crate::trap::group_dispatcher_fields};

/// How often a `ModalDialog` that does nothing runs in one go, beyond the first
/// time.
pub const REFIRE_BATCH: u32 = 63;
/// Traps of the application's own work stand below this address.
pub const APPLICATION_CODE_LIMIT: u32 = 0x0080_0000;

/// Traps that an idle loop may contain: `GetNextEvent`, `EventAvail`,
/// `GlobalToLocal`, `SystemTask` and `TickCount`.
pub open spec fn idle_loop_trap(opcode: u16) -> bool {
    let (tool, number) = trap_number(opcode);
    tool && (number == 0x170 || number == 0x171 || number == 0x71 || number == 0x1B4 || number == 0x175)
}

/// Whether an idle loop may contain this trap.
pub fn is_idle_loop_trap(opcode: u16) -> (r: bool)
    ensures
        r == idle_loop_trap(opcode),
{
    let (tool, number): (bool, u16) = canonical_trap_number(opcode);
    tool && (number == 0x170 || number == 0x171 || number == 0x71 || number == 0x1B4 || number == 0x175)
}

/// The sum, not beyond the range.
pub open spec fn saturated(a: i32, b: i32) -> i32 {
    if a + b > i32::MAX {
        i32::MAX
    } else if a + b < i32::MIN {
        i32::MIN
    } else {
        (a + b) as i32
    }
}

fn saturating_sum(a: i32, b: i32) -> (r: i32)
    ensures
        r == saturated(a, b),
{
    let s: i64 = a as i64 + b as i64;
    if s > i32::MAX as i64 {
        i32::MAX
    } else if s < i32::MIN as i64 {
        i32::MIN
    } else {
        s as i32
    }
}

impl DispView {
    /// The state when an inline `PtInRect` at `pc` begins.
    pub open spec fn rect_trapped(self, pc: u32) -> DispView {
        let d = self.trapped_inline(TRAP_PT_IN_RECT);
        DispView {
            game_trap_count: if pc < APPLICATION_CODE_LIMIT && !self.tracking() {
                bumped(self.game_trap_count)
            } else {
                self.game_trap_count
            },
            ..d
        }
    }
}

impl TrapDispatcher {
    fn begin_inline_rect_trap(&mut self, pc: u32)
        requires
            old(self).wf(),
        ensures
            final(self)@ == old(self)@.rect_trapped(pc),
            final(self).wf(),
    {
        proof {
            reveal(TrapDispatcher::view);
        }
        let tracking: bool = self.menu_tracking || self.dialog_tracking.is_some() || self.control_tracking;
        self.begin_inline_trap(TRAP_PT_IN_RECT);
        if pc < APPLICATION_CODE_LIMIT && !tracking {
            self.game_trap_count = self.game_trap_count.saturating_add(1);
        }
    }

    /// Says whether the host shows the screen while tracking goes on.
    fn set_yield_for_ui(&mut self, yields: bool)
        ensures
            final(self)@ == (DispView { yield_for_ui: yields, ..old(self)@ }),
            old(self).wf() ==> final(self).wf(),
    {
        proof {
            reveal(TrapDispatcher::view);
        }
        self.yield_for_ui = yields;
    }

    /// Whether no event waits.
    fn queue_is_empty(&self) -> (r: bool)
        ensures
            r == (self@.event_queue.len() == 0),
    {
        proof {
            reveal(TrapDispatcher::view);
        }
        self.event_queue.len() == 0
    }
}

impl RunnerView {
    /// Wait loops are skipped in this slice.
    pub open spec fn skips_waits(self, o: SliceOrder) -> bool {
        spin_gate(
            self.config.spin_fastfwd_force_on,
            self.config.spin_fastfwd_force_off,
            o.yield_for_ui,
            o.tick_cap is Some,
        )
    }

    /// `TickCount`: the tick count is on the stack, and a wait loop around it is
    /// skipped. The number counts the instructions skipped.
    #[verifier::opaque]
    pub open spec fn tick_count_read(self, o: SliceOrder) -> (RunnerView, u32, Flow) {
        let s = RunnerView {
            bus: self.bus.long(self.cpu.sp(), self.disp.tick_count),
            disp: self.disp.trapped_inline(TRAP_TICK_COUNT),
            ..self
        };
        if self.skips_waits(o) {
            let (t, capped, k) = s.spun(self.cpu.ppc.wrapping_add(2), o.tick_cap);
            (
                t,
                k,
                if capped {
                    Flow::Leave
                } else {
                    Flow::Again
                },
            )
        } else {
            (s, 0, Flow::Again)
        }
    }

    /// `ModalDialog` would do nothing: there is a dialog, drawn and at rest, no
    /// event waits, and its filter procedure, if it has one, has had its null
    /// event in this tick.
    pub open spec fn dialog_at_rest(self, o: SliceOrder) -> bool {
        &&& self.disp.dialog matches Some(d)
        &&& !o.yield_for_ui
        &&& d.flash_remaining == 0
        &&& d.draw_procs_done
        &&& d.rendered_pixels_final
        &&& self.disp.event_queue.len() == 0
        &&& d.filter_proc == 0 || (d.last_filter_event is None && !self.disp.mouse_on_dialog_button()
            && !self.disp.mouse_on_plain_user_item() && !self.disp.shell.user_item_mouse_down
            && self.null_event_sent(d.dialog_ptr) && !self.filter_event_pending(d.dialog_ptr))
    }

    /// The state after a `ModalDialog` at rest has run `left` times more, at most
    /// `room`, how often it did, and whether the tick cap was reached.
    pub open spec fn refired(self, cap: Option<u32>, room: int, left: nat) -> (RunnerView, nat, bool)
        decreases left,
    {
        if left == 0 || room <= 0 {
            (self, 0, false)
        } else {
            let (s, capped) = self.charged(1, cap);
            if capped {
                (s, 0, true)
            } else {
                let t = RunnerView {
                    total_instructions: s.total_instructions.wrapping_add(1),
                    disp: s.disp.counted_inline(TRAP_MODAL_DIALOG),
                    ..s
                };
                let (u, k, end) = t.refired(cap, room - 1, (left - 1) as nat);
                (u, k + 1, end)
            }
        }
    }

    /// `ModalDialog` at rest: it runs many times in one go, and then again.
    #[verifier::opaque]
    pub open spec fn dialog_refired(self, o: SliceOrder, room: int) -> (RunnerView, nat, bool) {
        let s = RunnerView { disp: self.disp.trapped_inline(TRAP_MODAL_DIALOG), ..self };
        let (t, k, capped) = s.refired(o.tick_cap, room, REFIRE_BATCH as nat);
        (RunnerView { cpu: t.cpu.with(Register::PC, self.cpu.ppc), ..t }, k, capped)
    }

    /// How a slice goes on when a launch was served or not.
    pub open spec fn launch_flow(self, served: bool, otherwise: Flow) -> Flow {
        if !served {
            otherwise
        } else if self.halted {
            Flow::Halt
        } else {
            Flow::Again
        }
    }

    /// `PtInRect`: its result is on the stack.
    #[verifier::opaque]
    pub open spec fn rect_asked(self) -> (RunnerView, Flow) {
        let s = RunnerView {
            bus: pt_in_rect(self.bus, self.cpu.sp()),
            cpu: popped(self.cpu, 8),
            disp: self.disp.rect_trapped(self.cpu.ppc),
            ..self
        };
        let (t, launched) = s.launch_served(true, false);
        (t, t.launch_flow(launched, Flow::Again))
    }

    /// `EventAvail`: the event is in its record and the result on the stack.
    #[verifier::opaque]
    pub open spec fn event_asked(self) -> RunnerView {
        RunnerView {
            bus: event_reply(self.disp, self.bus, self.cpu.sp()),
            cpu: popped(self.cpu, 6),
            disp: self.disp.trapped_inline(TRAP_EVENT_AVAIL),
            ..self
        }.noted(TRAP_EVENT_AVAIL)
    }

    /// `t` follows, with result `r`, when a loop that asks for events passes
    /// `trap_pc`.
    pub open spec fn passes_null_event(self, t: RunnerView, trap_pc: u32, cap: Option<u32>, r: bool) -> bool {
        match cap {
            Some(c) if !self.watches_elsewhere(trap_pc) => self.may_pass_idle(
                t,
                trap_pc,
                self.disp.tick_count.wrapping_add(1),
                c,
                r,
            ),
            _ => !r && t == self,
        }
    }

    /// The state after a trap's time was charged, and whether the tick cap was
    /// reached.
    #[verifier::opaque]
    pub open spec fn trap_charged(self, opcode: u16, cap: Option<u32>) -> (RunnerView, bool) {
        let s = self.noted(opcode);
        let cost = saturated(trap_cost(opcode), s.disp.hle_tick_cost);
        let t = RunnerView { disp: DispView { hle_tick_cost: 0, ..s.disp }, ..s };
        if cost > 0 {
            t.charged(cost, cap)
        } else {
            (t, false)
        }
    }

    /// The state when tracking goes on at the trap `pc`: tracking of menus and
    /// controls holds the clock while the host shows the screen, and that of
    /// dialogs lets it go.
    #[verifier::opaque]
    pub open spec fn tracking_held(self, o: SliceOrder, opcode: u16, pc: u32) -> RunnerView {
        let a = if o.yield_for_ui && self.frozen_ticks is None && freezes_ticks(opcode) {
            RunnerView { frozen_ticks: Some(self.tick()), ..self }
        } else {
            self
        };
        let b = if o.yield_for_ui && a.frozen_ticks is Some && !freezes_ticks(opcode) {
            a.unfrozen_to(o.host_tick)
        } else {
            a
        };
        RunnerView { cpu: b.cpu.with(Register::PC, pc), ..b }
    }

    /// The state after a procedure of the tracking trap had its chance, and
    /// whether one did: the menu hook, a draw procedure, or the filter procedure.
    #[verifier::opaque]
    pub open spec fn tracking_called(self, opcode: u16) -> (RunnerView, bool) {
        let (a, hooked) = self.hook_called(opcode);
        if hooked {
            (a, true)
        } else {
            let (b, drew) = a.drawn();
            if drew {
                (b, true)
            } else if b.filter_due() {
                (b.filter_called().0, true)
            } else {
                (b, false)
            }
        }
    }

    /// The state after tracking went on. With nothing called, the host shows the
    /// screen if it wants to; a dialog first has its idle tick.
    #[verifier::opaque]
    pub open spec fn tracking_on(self, o: SliceOrder, opcode: u16, pc: u32) -> (RunnerView, Flow) {
        let (a, called) = self.tracking_held(o, opcode, pc).tracking_called(opcode);
        if !o.yield_for_ui || called {
            (a, Flow::Run)
        } else if opcode & 0xFBFF == TRAP_MODAL_DIALOG {
            let (b, over) = a.modal_idle_ticked(o.tick_cap);
            (
                b,
                if over {
                    Flow::Yield
                } else {
                    Flow::Again
                },
            )
        } else {
            (a, Flow::Yield)
        }
    }

    /// The state when the guest goes on behind a trap: the clock is let go,
    /// modeless dialogs are drawn unless tracking goes on, and delays and
    /// launches are served.
    #[verifier::opaque]
    pub open spec fn trap_left(self, o: SliceOrder, opcode: u16, tracks: bool) -> (RunnerView, Flow) {
        let a = if self.frozen_ticks is Some {
            self.unfrozen_to(o.host_tick)
        } else {
            self
        };
        let (b, drew) = if tracks {
            (a, false)
        } else {
            a.modeless_drawn()
        };
        if drew {
            (b, Flow::Again)
        } else {
            let c = b.delay_served(o.tick_cap).0;
            let (d, launched) = c.launch_served(event_yield(opcode), false);
            (d, d.launch_flow(launched, Flow::Run))
        }
    }

    /// The state after a trap at `pc` that was served, and whether the tick cap
    /// was reached.
    #[verifier::opaque]
    pub open spec fn trap_done(self, o: SliceOrder, opcode: u16, pc: u32) -> (RunnerView, bool, Flow) {
        let (a, capped) = self.trap_charged(opcode, o.tick_cap);
        if a.disp.refires(opcode) {
            let (b, flow) = a.tracking_on(o, opcode, pc);
            if flow is Run {
                let (c, end) = b.trap_left(o, opcode, true);
                (c, capped, end)
            } else {
                (b, capped, flow)
            }
        } else {
            let (b, end) = a.trap_left(o, opcode, false);
            (b, capped, end)
        }
    }

    /// The state after a trap at `pc` that ended the application. An application
    /// to launch takes its place; without one the machine halts.
    #[verifier::opaque]
    pub open spec fn trap_ended(self, opcode: u16, pc: u32) -> (RunnerView, Flow) {
        let (a, launched) = if opcode == TRAP_LAUNCH || opcode == TRAP_EXIT_TO_SHELL {
            self.launch_served(false, true)
        } else {
            (self, false)
        };
        if launched {
            (a, a.launch_flow(true, Flow::Run))
        } else {
            (RunnerView { halted_trap: Some(opcode), ..a.halted_at(pc) }, Flow::Halt)
        }
    }

    /// The state after the Toolbox has dealt with a trap, and whether it served
    /// it.
    #[verifier::opaque]
    pub open spec fn toolbox_called(self, o: SliceOrder, opcode: u16) -> (RunnerView, Result<(), Error>) {
        let d = DispView { yield_for_ui: o.yield_for_ui, ..self.disp };
        let (disp, cpu, bus, r) = served(
            d.trapped(opcode, self.cpu.pc.wrapping_sub(2)),
            self.cpu,
            self.bus,
            opcode,
        );
        (RunnerView { disp, cpu, bus, ..self }, r)
    }

    /// The state after a trap was dispatched: whether the tick cap was reached,
    /// how the slice goes on, and whether the trap reported that there is no
    /// event. A trap that nothing serves is passed over.
    #[verifier::opaque]
    pub open spec fn trap_dispatched(self, o: SliceOrder, opcode: u16) -> (RunnerView, bool, Flow, bool) {
        let pc = self.cpu.ppc;
        let (a, r) = self.toolbox_called(o, opcode);
        match r {
            Ok(_) => {
                let (b, capped, flow) = a.trap_done(o, opcode, pc);
                (b, capped, flow, a.null_event(opcode))
            },
            Err(Error::Halted) => {
                let (b, flow) = a.trap_ended(opcode, pc);
                (b, false, flow, false)
            },
            Err(Error::UnimplementedTrap(_)) => (
                RunnerView { cpu: a.cpu.with(Register::PC, pc.wrapping_add(2)), ..a },
                false,
                Flow::Run,
                false,
            ),
            Err(Error::Timeout(_)) => (a.halted_at(pc), false, Flow::Halt, false),
        }
    }

    /// `t` may follow when trap `opcode` ended a run of instructions, with room for
    /// `room` more instructions in the slice: `k` more instructions count, `capped`
    /// says whether the tick cap was reached, and `flow` how the slice goes on.
    #[verifier::opaque]
    pub open spec fn traps(self, t: RunnerView, o: SliceOrder, opcode: u16, room: int, k: nat, capped: bool, flow: Flow) -> bool {
        let s = if self.idle_cycle_probe is Some && !idle_loop_trap(opcode) {
            self.unwatched()
        } else {
            self
        };
        if opcode == TRAP_TICK_COUNT {
            let (u, n, f) = s.tick_count_read(o);
            t == u && k == n && !capped && flow == f
        } else if opcode == TRAP_MODAL_DIALOG && s.dialog_at_rest(o) {
            (t, k, capped) == s.dialog_refired(o, room) && flow is Again
        } else if opcode == TRAP_PT_IN_RECT {
            (t, flow) == s.rect_asked() && k == 0 && !capped
        } else if opcode == TRAP_EVENT_AVAIL {
            k == 0 && !capped && s.event_asked().may_stay_idle(
                t,
                s.event_asked().null_event(opcode) && s.skips_waits(o),
                s.cpu.ppc,
                o.tick_cap,
                Flow::Again,
                flow,
            )
        } else {
            let (u, hit, f, null) = s.trap_dispatched(o, opcode);
            k == 0 && capped == hit && u.may_stay_idle(
                t,
                f is Run && null && u.skips_waits(o),
                s.cpu.ppc,
                o.tick_cap,
                f,
                flow,
            )
        }
    }

    /// `t` may follow when a loop that may be idle, if `idle` says so, passes
    /// `pc`; while it is not parked the slice goes on as `otherwise` says.
    pub open spec fn may_stay_idle(
        self,
        t: RunnerView,
        idle: bool,
        pc: u32,
        cap: Option<u32>,
        otherwise: Flow,
        flow: Flow,
    ) -> bool {
        if idle {
            ||| flow is Leave && self.passes_null_event(t, pc, cap, true)
            ||| flow == otherwise && self.passes_null_event(t, pc, cap, false)
        } else {
            t == self && flow == otherwise
        }
    }
}

impl FixtureRunner {
    fn skips_wait_loops(&self, o: &SliceOrder) -> (r: bool)
        ensures
            r == self@.skips_waits(*o),
    {
        spin_wait_fastfwd_gate(
            self.config.spin_fastfwd_force_on,
            self.config.spin_fastfwd_force_off,
            o.yield_for_ui,
            o.tick_cap.is_some(),
        )
    }

    fn read_tick_count(&mut self, o: &SliceOrder) -> (r: (u32, Flow))
        requires
            old(self).wf(),
        ensures
            (final(self)@, r.0, r.1) == old(self)@.tick_count_read(*o),
            r.0 <= 4,
            final(self).wf(),
    {
        proof {
            reveal(RunnerView::tick_count_read);
        }
        let pc: u32 = self.cpu.ppc();
        let sp: u32 = self.cpu.read_reg(Register::A7);
        self.bus.write_long(sp, self.dispatcher.tick_count);
        self.dispatcher.begin_inline_trap(TRAP_TICK_COUNT);
        if !self.skips_wait_loops(o) {
            return (0, Flow::Again);
        }
        let (capped, k): (bool, u32) = self.try_tickcount_spin_fastfwd(pc.wrapping_add(2), o.tick_cap);
        (k, if capped { Flow::Leave } else { Flow::Again })
    }

    fn is_dialog_at_rest(&self, o: &SliceOrder) -> (r: bool)
        ensures
            r == self@.dialog_at_rest(*o),
    {
        let d = match &self.dispatcher.dialog_tracking {
            Some(d) => d,
            None => return false,
        };
        let mut filter_rests: bool = d.filter_proc == 0;
        if !filter_rests {
            let mouse: bool = self.dispatcher.mouse_down_over_dialog_button()
                || self.dispatcher.mouse_down_over_dialog_plain_user_item()
                || self.dispatcher.pending_dialog_plain_user_item_mouse_down();
            filter_rests = d.last_filter_event.is_none() && !mouse && self.dialog_filter_null_event_already_sent_this_tick(
                d.dialog_ptr,
            ) && !self.dialog_filter_has_real_event_pending(d.dialog_ptr);
        }
        modaldialog_refire_is_noop(
            o.yield_for_ui,
            true,
            filter_rests,
            d.flash_remaining == 0,
            d.draw_procs_done,
            d.rendered_pixels_final,
            self.dispatcher.queue_is_empty(),
        )
    }

    fn refire_dialog(&mut self, o: &SliceOrder, room: usize) -> (r: (u32, bool))
        requires
            old(self).wf(),
        ensures
            (final(self)@, r.0 as nat, r.1) == old(self)@.dialog_refired(*o, room as int),
            r.0 <= room,
            r.0 <= REFIRE_BATCH,
            final(self).wf(),
    {
        proof {
            reveal(RunnerView::dialog_refired);
        }
        let pc: u32 = self.cpu.ppc();
        self.dispatcher.begin_inline_trap(TRAP_MODAL_DIALOG);
        let mut k: u32 = 0;
        let mut capped: bool = false;
        let ghost start = self@;
        while k < REFIRE_BATCH && (k as usize) < room && !capped
            invariant
                k <= REFIRE_BATCH,
                k <= room,
                self.wf(),
                ({
                    let (u, n, end) = start.refired(o.tick_cap, room as int, REFIRE_BATCH as nat);
                    if capped {
                        (u, n, end) == (self@, k as nat, true)
                    } else {
                        let (u2, n2, end2) = self@.refired(o.tick_cap, room - k, (REFIRE_BATCH - k) as nat);
                        (u, n, end) == (u2, n2 + k as nat, end2)
                    }
                }),
            decreases REFIRE_BATCH - k, (if capped { 0int } else { 1int }),
        {
            capped = self.charge_tick_budget(1, o.tick_cap);
            if !capped {
                self.total_instructions = self.total_instructions.wrapping_add(1);
                self.dispatcher.count_trap(TRAP_MODAL_DIALOG, true);
                k = k + 1;
            }
        }
        self.cpu.write_reg(Register::PC, pc);
        (k, capped)
    }

    fn flow_after_launch(&self, served: bool, otherwise: Flow) -> (r: Flow)
        ensures
            r == self@.launch_flow(served, otherwise),
    {
        if !served {
            otherwise
        } else if self.halted {
            Flow::Halt
        } else {
            Flow::Again
        }
    }

    fn ask_rect(&mut self) -> (r: Flow)
        requires
            old(self).wf(),
        ensures
            (final(self)@, r) == old(self)@.rect_asked(),
            final(self).wf(),
    {
        proof {
            reveal(RunnerView::rect_asked);
        }
        let sp: u32 = self.cpu.read_reg(Register::A7);
        write_pt_in_rect(&mut self.bus, sp);
        self.cpu.write_reg(Register::A7, sp.wrapping_add(8));
        let pc: u32 = self.cpu.ppc();
        self.dispatcher.begin_inline_rect_trap(pc);
        let launched: bool = self.service_pending_launch_application(true, false);
        self.flow_after_launch(launched, Flow::Again)
    }

    fn ask_event(&mut self) -> (r: bool)
        requires
            old(self).wf(),
        ensures
            final(self)@ == old(self)@.event_asked(),
            r == final(self)@.null_event(TRAP_EVENT_AVAIL),
            final(self).wf(),
    {
        proof {
            reveal(RunnerView::event_asked);
        }
        let sp: u32 = self.cpu.read_reg(Register::A7);
        let ev: Option<QueuedEvent> = self.dispatcher.peek_toolbox_event(self.bus.read_word(sp.wrapping_add(4)));
        self.dispatcher.write_event_reply(&mut self.bus, sp, ev);
        self.cpu.write_reg(Register::A7, sp.wrapping_add(6));
        self.dispatcher.begin_inline_trap(TRAP_EVENT_AVAIL);
        self.note_idle_cycle_trap_result(TRAP_EVENT_AVAIL)
    }

    fn stay_idle(&mut self, idle: bool, pc: u32, cap: Option<u32>, otherwise: Flow) -> (r: Flow)
        requires
            old(self).wf(),
        ensures
            old(self)@.may_stay_idle(final(self)@, idle, pc, cap, otherwise, r),
            final(self).wf(),
    {
        if idle && self.try_exact_null_event_cycle_fastfwd(pc, cap) {
            Flow::Leave
        } else {
            otherwise
        }
    }

    fn charge_trap(&mut self, opcode: u16, cap: Option<u32>) -> (r: bool)
        requires
            old(self).wf(),
        ensures
            (final(self)@, r) == old(self)@.trap_charged(opcode, cap),
            final(self).wf(),
    {
        proof {
            reveal(RunnerView::trap_charged);
        }
        self.note_idle_cycle_trap_result(opcode);
        let cost: i32 = saturating_sum(hle_trap_extra_tick_cost(opcode), self.dispatcher.take_hle_tick_cost());
        cost > 0 && self.charge_tick_budget(cost, cap)
    }

    fn hold_tracking(&mut self, o: &SliceOrder, opcode: u16, pc: u32)
        requires
            old(self).wf(),
        ensures
            final(self)@ == old(self)@.tracking_held(*o, opcode, pc),
            final(self).wf(),
    {
        proof {
            reveal(RunnerView::tracking_held);
        }
        let freezes: bool = tracking_refire_should_freeze_ticks(opcode);
        if o.yield_for_ui && self.frozen_ticks.is_none() && freezes {
            self.frozen_ticks = Some(self.bus.read_long(TICKS));
        }
        if o.yield_for_ui && self.frozen_ticks.is_some() && !freezes {
            self.unfreeze_ticks_to(o.host_tick);
        }
        self.cpu.write_reg(Register::PC, pc);
    }

    fn call_tracking(&mut self, opcode: u16) -> (r: bool)
        requires
            old(self).wf(),
        ensures
            (final(self)@, r) == old(self)@.tracking_called(opcode),
            final(self).wf(),
    {
        proof {
            reveal(RunnerView::tracking_called);
        }
        if self.fire_menu_hook_proc(opcode) {
            return true;
        }
        if self.fire_dialog_draw_procs() {
            return true;
        }
        if self.should_fire_dialog_filter_proc() {
            self.fire_dialog_filter_proc();
            return true;
        }
        false
    }

    fn go_on_tracking(&mut self, o: &SliceOrder, opcode: u16, pc: u32) -> (r: Flow)
        requires
            old(self).wf(),
        ensures
            (final(self)@, r) == old(self)@.tracking_on(*o, opcode, pc),
            final(self).wf(),
    {
        proof {
            reveal(RunnerView::tracking_on);
        }
        self.hold_tracking(o, opcode, pc);
        let called: bool = self.call_tracking(opcode);
        if !o.yield_for_ui || called {
            return Flow::Run;
        }
        if opcode & 0xFBFF == TRAP_MODAL_DIALOG && !self.service_gui_modal_dialog_idle_tick(o.tick_cap) {
            return Flow::Again;
        }
        Flow::Yield
    }

    fn leave_trap(&mut self, o: &SliceOrder, opcode: u16, tracks: bool) -> (r: Flow)
        requires
            old(self).wf(),
        ensures
            (final(self)@, r) == old(self)@.trap_left(*o, opcode, tracks),
            final(self).wf(),
    {
        proof {
            reveal(RunnerView::trap_left);
        }
        if self.frozen_ticks.is_some() {
            self.unfreeze_ticks_to(o.host_tick);
        }
        if !tracks && self.fire_modeless_dialog_draw_proc() {
            return Flow::Again;
        }
        self.service_delay_ticks(o.tick_cap);
        let launched: bool = self.service_pending_launch_application(event_manager_yield_trap(opcode), false);
        self.flow_after_launch(launched, Flow::Run)
    }

    fn finish_trap(&mut self, o: &SliceOrder, opcode: u16, pc: u32) -> (r: (bool, Flow))
        requires
            old(self).wf(),
        ensures
            (final(self)@, r.0, r.1) == old(self)@.trap_done(*o, opcode, pc),
            final(self).wf(),
    {
        proof {
            reveal(RunnerView::trap_done);
        }
        let capped: bool = self.charge_trap(opcode, o.tick_cap);
        let tracks: bool = self.dispatcher.is_tracking_refire(opcode);
        if tracks {
            let flow: Flow = self.go_on_tracking(o, opcode, pc);
            if flow != Flow::Run {
                return (capped, flow);
            }
        }
        let end: Flow = self.leave_trap(o, opcode, tracks);
        (capped, end)
    }

    fn end_application(&mut self, opcode: u16, pc: u32) -> (r: Flow)
        requires
            old(self).wf(),
        ensures
            (final(self)@, r) == old(self)@.trap_ended(opcode, pc),
            final(self).wf(),
    {
        proof {
            reveal(RunnerView::trap_ended);
        }
        if (opcode == TRAP_LAUNCH || opcode == TRAP_EXIT_TO_SHELL) && self.service_pending_launch_application(false, true) {
            return self.flow_after_launch(true, Flow::Run);
        }
        self.halt_at(pc);
        self.halted_trap = Some(opcode);
        Flow::Halt
    }

    fn call_toolbox(&mut self, o: &SliceOrder, opcode: u16) -> (r: Result<(), Error>)
        requires
            old(self).wf(),
        ensures
            (final(self)@, r) == old(self)@.toolbox_called(*o, opcode),
            final(self).wf(),
    {
        proof {
            reveal(RunnerView::toolbox_called);
        }
        self.dispatcher.set_yield_for_ui(o.yield_for_ui);
        self.dispatcher.dispatch(opcode, &mut self.cpu, &mut self.bus)
    }

    fn is_null_event(&self, opcode: u16) -> (r: bool)
        requires
            self@.cpu.dar.len() == 16,
        ensures
            r == self@.null_event(opcode),
    {
        let (tool, number): (bool, u16) = canonical_trap_number(opcode);
        tool && (number == 0x170 || number == 0x171) && self.bus.read_word(self.cpu.read_reg(Register::A7)) == 0
    }

    fn dispatch_trap(&mut self, o: &SliceOrder, opcode: u16) -> (r: (bool, Flow, bool))
        requires
            old(self).wf(),
        ensures
            (final(self)@, r.0, r.1, r.2) == old(self)@.trap_dispatched(*o, opcode),
            final(self).wf(),
    {
        proof {
            reveal(RunnerView::trap_dispatched);
        }
        let pc: u32 = self.cpu.ppc();
        match self.call_toolbox(o, opcode) {
            Ok(_) => {
                let null: bool = self.is_null_event(opcode);
                let (capped, flow): (bool, Flow) = self.finish_trap(o, opcode, pc);
                (capped, flow, null)
            },
            Err(Error::Halted) => {
                let flow: Flow = self.end_application(opcode, pc);
                (false, flow, false)
            },
            Err(Error::UnimplementedTrap(_)) => {
                self.cpu.write_reg(Register::PC, pc.wrapping_add(2));
                (false, Flow::Run, false)
            },
            Err(Error::Timeout(_)) => {
                self.halt_at(pc);
                (false, Flow::Halt, false)
            },
        }
    }

    /// Deals with a trap that ended a run of instructions, with room for `room`
    /// more in the slice: the instructions that count beside it, whether the tick
    /// cap was reached, and how the slice goes on.
    pub fn take_trap(&mut self, o: &SliceOrder, opcode: u16, room: usize) -> (r: (u32, bool, Flow))
        requires
            old(self).wf(),
        ensures
            old(self)@.traps(final(self)@, *o, opcode, room as int, r.0 as nat, r.1, r.2),
            r.0 <= 4 || r.0 <= room,
            final(self).wf(),
    {
        proof {
            reveal(RunnerView::traps);
        }
        if self.idle_cycle_probe.is_some() && !is_idle_loop_trap(opcode) {
            self.cancel_idle_cycle_detector();
        }
        let pc: u32 = self.cpu.ppc();
        if opcode == TRAP_TICK_COUNT {
            let (k, flow): (u32, Flow) = self.read_tick_count(o);
            return (k, false, flow);
        }
        if opcode == TRAP_MODAL_DIALOG && self.is_dialog_at_rest(o) {
            let (k, capped): (u32, bool) = self.refire_dialog(o, room);
            return (k, capped, Flow::Again);
        }
        if opcode == TRAP_PT_IN_RECT {
            let flow: Flow = self.ask_rect();
            return (0, false, flow);
        }
        if opcode == TRAP_EVENT_AVAIL {
            let skips: bool = self.skips_wait_loops(o);
            let null: bool = self.ask_event();
            let flow: Flow = self.stay_idle(null && skips, pc, o.tick_cap, Flow::Again);
            return (0, false, flow);
        }
        let (capped, end, null): (bool, Flow, bool) = self.dispatch_trap(o, opcode);
        let idle: bool = end == Flow::Run && null && self.skips_wait_loops(o);
        let flow: Flow = self.stay_idle(idle, pc, o.tick_cap, end);
        (0, capped, flow)
    }
}

} // verus!

use vstd::prelude::*;

use crate::cpu::Register;
use crate::globals::{MB_STATE, TICKS, TIME};
use crate::memory::{group_memory_lengths, BusView, MacMemoryBus};
use crate::runner::{FixtureRunner, RunnerView};
use crate::timers::SUBTICKS_PER_TICK;
use crate::trap::DispView;

verus! {

broadcast use {group_memory_lengths, crate::trap::group_dispatcher_fields};

/// `a - b`, or the least number where that is too small.
pub open spec fn lowered(a: i32, b: i32) -> i32 {
    if a - b < i32::MIN {
        i32::MIN
    } else if a - b > i32::MAX {
        i32::MAX
    } else {
        (a - b) as i32
    }
}

fn lower(a: i32, b: i32) -> (r: i32)
    ensures
        r == lowered(a, b),
{
    let d: i64 = a as i64 - b as i64;
    if d < i32::MIN as i64 {
        i32::MIN
    } else if d > i32::MAX as i64 {
        i32::MAX
    } else {
        d as i32
    }
}

/// Memory when the clocks show tick `tick`: the tick count, the mouse button as
/// low memory shows it, and once in 60 ticks a second more.
#[verifier::opaque]
pub open spec fn with_clock(b: BusView, tick: u32, pressed: bool) -> BusView {
    let b = b.long(TICKS, tick).byte(MB_STATE, if pressed { 0u8 } else { 0x80u8 });
    if tick % 60 == 0 {
        b.long(TIME, b.get_long(TIME).wrapping_add(1))
    } else {
        b
    }
}

fn write_clock(bus: &mut MacMemoryBus, tick: u32, pressed: bool)
    ensures
        final(bus)@ == with_clock(old(bus)@, tick, pressed),
        old(bus).probe_wf() ==> final(bus).probe_wf(),
        final(bus)@.mem.len() == old(bus)@.mem.len(),
{
    proof {
        reveal(with_clock);
    }
    bus.write_long(TICKS, tick);
    bus.write_byte(MB_STATE, if pressed { 0x00 } else { 0x80 });
    if tick % 60 == 0 {
        let time: u32 = bus.read_long(TIME);
        bus.write_long(TIME, time.wrapping_add(1));
    }
}

impl RunnerView {
    /// No idle loop is watched or parked.
    pub open spec fn unwatched(self) -> RunnerView {
        RunnerView {
            bus: BusView { probe: None, ..self.bus },
            idle_cycle_probe: None,
            idle_cycle_last_seen: None,
            idle_cycle_sleep: None,
            ..self
        }
    }

    /// The state when the clock shows the next tick, before interrupt work.
    pub open spec fn clocked(self) -> RunnerView {
        let tick = self.tick().wrapping_add(1);
        let s = self.unwatched();
        RunnerView {
            bus: with_clock(s.bus, tick, self.disp.mouse_button || self.disp.unmatched_mouse_down()),
            disp: DispView { tick_count: tick, ..self.disp },
            ..s
        }
    }

    /// The state one tick later: the clocks go on, and the cursor task, the
    /// retrace tasks and the timer tasks have their chance, in this order.
    #[verifier::opaque]
    pub open spec fn ticked(self) -> RunnerView {
        let tick = self.tick().wrapping_add(1);
        self.clocked().cursor_fired().vbl_fired().timer_fired((tick * SUBTICKS_PER_TICK) as u64)
    }

    /// A full tick's instructions to run.
    pub open spec fn refilled(self) -> RunnerView {
        RunnerView { tick_budget: self.instructions_per_tick as i32, ..self }
    }

    /// The tick count has come to `cap`.
    pub open spec fn reached(self, cap: Option<u32>) -> bool {
        cap matches Some(c) && self.tick() >= c
    }

    /// The state after as many ticks as the instructions already run have used
    /// up, and whether the tick cap ended it. Ticks stop at the cap and when a
    /// callback interrupts the application.
    pub open spec fn budget_ticks(self, cap: Option<u32>) -> (RunnerView, bool)
        decreases (if self.tick_budget <= 0 { 1 - self.tick_budget } else { 0 }),
            when 1 <= self.instructions_per_tick <= 0x7fff_ffff
    {
        proof {
            lemma_ticked_keeps(self);
        }
        if self.tick_budget > 0 || self.frozen_ticks is Some {
            (self, false)
        } else if self.reached(cap) {
            (self, true)
        } else {
            let t = self.ticked();
            let s = RunnerView { tick_budget: (self.tick_budget + self.instructions_per_tick) as i32, ..t };
            if s.active is Some {
                (s, false)
            } else if s.reached(cap) {
                (s, true)
            } else {
                s.budget_ticks(cap)
            }
        }
    }

    /// The state after `units` instructions' time was charged, and whether the
    /// tick cap ended it. Callbacks run for free.
    pub open spec fn charged(self, units: i32, cap: Option<u32>) -> (RunnerView, bool) {
        if units <= 0 || self.active is Some {
            (self, false)
        } else {
            RunnerView { tick_budget: lowered(self.tick_budget, units), ..self }.budget_ticks(cap)
        }
    }

    /// The state after the sleep went on until it ended, the tick cap was
    /// reached or a callback interrupted it.
    pub open spec fn slept(self, cap: Option<u32>) -> RunnerView
        decreases self.disp.pending_wait_sleep_ticks,
    {
        if self.disp.pending_wait_sleep_ticks == 0 || self.reached(cap) {
            self
        } else {
            let spent = RunnerView {
                disp: DispView { pending_wait_sleep_ticks: (self.disp.pending_wait_sleep_ticks - 1) as u32, ..self.disp },
                ..self
            };
            proof {
                lemma_ticked_keeps(spent);
            }
            let s = spent.ticked().refilled();
            if s.active is Some {
                s
            } else {
                s.slept(cap)
            }
        }
    }

    /// The state after `n` ticks, fewer where a callback interrupts.
    pub open spec fn ticked_times(self, n: nat) -> RunnerView
        decreases n,
    {
        if n == 0 {
            self
        } else {
            let s = self.ticked().refilled();
            if s.active is Some {
                s
            } else {
                s.ticked_times((n - 1) as nat)
            }
        }
    }

    /// A finished delay leaves the tick count in D0.
    pub open spec fn delay_result(self) -> RunnerView {
        if self.disp.pending_delay_ticks == 0 {
            RunnerView { cpu: self.cpu.with(Register::D0, self.tick()), ..self }
        } else {
            self
        }
    }

    /// The state after a delay went on until it ended, the tick cap was reached
    /// or a callback interrupted it, and whether the cap ended it.
    pub open spec fn delayed(self, cap: Option<u32>) -> (RunnerView, bool)
        decreases self.disp.pending_delay_ticks,
    {
        if self.disp.pending_delay_ticks == 0 {
            (self.delay_result(), false)
        } else if self.reached(cap) {
            (self, true)
        } else {
            let spent = RunnerView {
                disp: DispView { pending_delay_ticks: (self.disp.pending_delay_ticks - 1) as u32, ..self.disp },
                ..self
            };
            proof {
                lemma_ticked_keeps(spent);
            }
            let s = spent.ticked().refilled();
            if s.active is Some {
                (s.delay_result(), false)
            } else {
                s.delayed(cap)
            }
        }
    }

    /// The state after the event sleeper was served, and whether it is awake.
    pub open spec fn event_delivered(self) -> (RunnerView, bool) {
        let (disp, bus, r) = self.disp.delivered(self.bus, self.cpu.pc, self.cpu.sp());
        (RunnerView { disp, bus, ..self }, r)
    }

    /// The state after new input was offered to the event sleeper, and whether
    /// it woke.
    pub open spec fn woken_by_input(self) -> (RunnerView, bool) {
        if self.active is Some || self.disp.pending_wait_sleep_ticks == 0
            || self.disp.pending_wait_next_event_return is None {
            (self, false)
        } else {
            self.event_delivered()
        }
    }

    /// The state after the event sleeper was woken with a null event, and
    /// whether it woke.
    pub open spec fn woken_by_polling(self) -> (RunnerView, bool) {
        if self.active is Some {
            (self, false)
        } else {
            let (disp, bus, r) = self.disp.polled(self.bus, self.cpu.pc, self.cpu.sp());
            (RunnerView { disp, bus, ..self }, r)
        }
    }

    /// The state with instructions to run, should none be left.
    pub open spec fn foreground_refilled(self) -> RunnerView {
        if self.tick_budget <= 0 {
            RunnerView {
                tick_budget: if self.instructions_per_tick < 2 { 2 } else { self.instructions_per_tick as i32 },
                ..self
            }
        } else {
            self
        }
    }

    /// The state after the event sleep was served, and whether the host has to
    /// take over because the tick cap was reached within it.
    pub open spec fn sleep_served(self, cap: Option<u32>) -> (RunnerView, bool) {
        let ended = RunnerView { disp: self.disp.awake().unparked(), ..self };
        if self.disp.pending_wait_sleep_ticks == 0 || self.active is Some {
            (self, false)
        } else if self.frozen_ticks is Some {
            (ended, false)
        } else {
            let (s, delivered) = self.event_delivered();
            if delivered {
                (s, false)
            } else {
                s.sleep_continued(cap)
            }
        }
    }

    /// The same where no event ended the sleep.
    pub open spec fn sleep_continued(self, cap: Option<u32>) -> (RunnerView, bool) {
        let ended = RunnerView { disp: self.disp.awake().unparked(), ..self };
        if cap is Some {
            if self.disp.dialog is Some || self.disp.retains_modal_dialog() {
                (ended, false)
            } else {
                let s = self.slept(cap);
                if s.disp.pending_wait_sleep_ticks > 0 && s.reached(cap) {
                    (s, true)
                } else {
                    (RunnerView { disp: s.disp.unparked(), ..s }, false)
                }
            }
        } else {
            match self.wait_sleep_cap_in_headless {
                Some(limit) => {
                    let n = if !self.disp.shows_own_dialog() && limit < self.disp.pending_wait_sleep_ticks {
                        limit
                    } else {
                        self.disp.pending_wait_sleep_ticks
                    };
                    (ended.ticked_times(n as nat), false)
                },
                None => {
                    let s = self.slept(None);
                    (RunnerView { disp: s.disp.unparked(), ..s }, false)
                },
            }
        }
    }

    /// The state after a delay was served, and whether the tick cap ended it.
    pub open spec fn delay_served(self, cap: Option<u32>) -> (RunnerView, bool) {
        if self.disp.pending_delay_ticks == 0 || self.active is Some {
            (self, false)
        } else if self.frozen_ticks is Some {
            (RunnerView { disp: DispView { pending_delay_ticks: 0, ..self.disp }, ..self }, false)
        } else {
            self.delayed(cap)
        }
    }

    /// The state after an idle tick of a modal dialog, and whether the host has
    /// to take over.
    pub open spec fn modal_idle_ticked(self, cap: Option<u32>) -> (RunnerView, bool) {
        if self.active is Some || self.frozen_ticks is Some || self.reached(cap) {
            (self, true)
        } else {
            let s = self.ticked().refilled();
            (s, cap is None || s.reached(cap))
        }
    }

    /// The state when the clock is let go, at `target` where it is given.
    pub open spec fn unfrozen_to(self, target: Option<u32>) -> RunnerView {
        match target {
            Some(t) => RunnerView {
                frozen_ticks: None,
                bus: self.bus.long(TICKS, t),
                disp: DispView { tick_count: t, ..self.disp },
                ..self
            },
            None => RunnerView { frozen_ticks: None, ..self },
        }
    }
}

/// What a tick may touch: the processor, memory, the clock and the timer tasks,
/// the stubs, the running callback and the watched idle loop. All else stays.
pub open spec fn tick_keeps(s: RunnerView, t: RunnerView) -> bool {
    &&& t.disp == (DispView {
        tick_count: t.disp.tick_count,
        timer_tasks: t.disp.timer_tasks,
        timer_current_subtick: t.disp.timer_current_subtick,
        ..s.disp
    })
    &&& t == (RunnerView {
        cpu: t.cpu,
        bus: t.bus,
        disp: t.disp,
        active: t.active,
        timer_trampoline: t.timer_trampoline,
        vbl_trampoline: t.vbl_trampoline,
        cursor_task_trampoline: t.cursor_task_trampoline,
        idle_cycle_probe: t.idle_cycle_probe,
        idle_cycle_last_seen: t.idle_cycle_last_seen,
        idle_cycle_sleep: t.idle_cycle_sleep,
        ..s
    })
}

/// A tick keeps the rest of the state.
#[verifier::rlimit(40)]
pub proof fn lemma_ticked_keeps(s: RunnerView)
    ensures
        tick_keeps(s, s.ticked()),
{
    reveal(RunnerView::ticked);
    let a = s.clocked();
    assert(tick_keeps(s, a));
    let b = a.cursor_fired();
    assert(tick_keeps(a, b)) by {
        reveal(RunnerView::cursor_fired);
        reveal(RunnerView::interrupted);
    }
    let c = b.vbl_fired();
    assert(tick_keeps(b, c)) by {
        reveal(RunnerView::vbl_fired);
        reveal(RunnerView::interrupted);
    }
    let now = (s.tick().wrapping_add(1) * SUBTICKS_PER_TICK) as u64;
    assert(tick_keeps(c, c.timer_fired(now))) by {
        reveal(RunnerView::timer_fired);
        reveal(RunnerView::interrupted);
    }
}

impl FixtureRunner {
    /// Stops watching for idle loops.
    pub fn cancel_idle_cycle_detector(&mut self)
        requires
            old(self).wf(),
        ensures
            final(self)@ == old(self)@.unwatched(),
            final(self).wf(),
    {
        self.bus.cancel_write_probe();
        self.idle_cycle_probe = None;
        self.idle_cycle_last_seen = None;
        self.idle_cycle_sleep = None;
    }

    /// Advances the guest by one tick.
    pub fn advance_guest_tick(&mut self) -> (r: u32)
        requires
            old(self).wf(),
        ensures
            final(self)@ == old(self)@.ticked(),
            r == old(self)@.tick().wrapping_add(1),
            final(self).wf(),
    {
        proof {
            reveal(RunnerView::ticked);
        }
        self.cancel_idle_cycle_detector();
        let new_tick: u32 = self.bus.read_long(TICKS).wrapping_add(1);
        let pressed: bool = self.dispatcher.mouse_reads_pressed();
        write_clock(&mut self.bus, new_tick, pressed);
        self.dispatcher.set_tick_count(new_tick);
        assert(self@ == old(self)@.clocked());
        self.fire_cursor_task();
        self.fire_vbl_tasks();
        self.fire_timer_tasks(new_tick);
        new_tick
    }

    fn cap_reached(&self, tick_cap: Option<u32>) -> (r: bool)
        ensures
            r == self@.reached(tick_cap),
    {
        match tick_cap {
            Some(cap) => self.bus.read_long(TICKS) >= cap,
            None => false,
        }
    }

    /// One tick, and a full tick's instructions to run.
    fn tick_and_refill(&mut self)
        requires
            old(self).wf(),
        ensures
            final(self)@ == old(self)@.ticked().refilled(),
            final(self).wf(),
    {
        self.advance_guest_tick();
        self.tick_budget = self.instructions_per_tick as i32;
    }

    /// Charges time, and advances the guest by the ticks that it makes up.
    pub fn charge_tick_budget(&mut self, units: i32, tick_cap: Option<u32>) -> (r: bool)
        requires
            old(self).wf(),
        ensures
            (final(self)@, r) == old(self)@.charged(units, tick_cap),
            final(self).wf(),
    {
        if units <= 0 || self.active_interrupt_callback.is_some() {
            return false;
        }
        self.tick_budget = lower(self.tick_budget, units);
        let ghost start = self@;
        while self.tick_budget <= 0 && self.frozen_ticks.is_none()
            invariant
                self.wf(),
                start.budget_ticks(tick_cap) == self@.budget_ticks(tick_cap),
                old(self)@.charged(units, tick_cap) == start.budget_ticks(tick_cap),
            decreases (if self.tick_budget <= 0 { 1 - self.tick_budget } else { 0 }),
        {
            proof {
                lemma_ticked_keeps(self@);
            }
            if self.cap_reached(tick_cap) {
                return true;
            }
            self.advance_guest_tick();
            self.tick_budget = self.tick_budget + self.instructions_per_tick as i32;
            if self.active_interrupt_callback.is_some() {
                return false;
            }
            if self.cap_reached(tick_cap) {
                return true;
            }
        }
        false
    }

    fn deliver_pending_wait_next_event_if_available(&mut self) -> (r: bool)
        requires
            old(self).wf(),
        ensures
            (final(self)@, r) == old(self)@.event_delivered(),
            final(self).wf(),
    {
        let pc: u32 = self.cpu.read_reg(Register::PC);
        let sp: u32 = self.cpu.read_reg(Register::A7);
        self.dispatcher.deliver_wait_next_event(&mut self.bus, pc, sp)
    }

    /// Offers new input to a sleeping `WaitNextEvent`.
    pub fn wake_pending_wait_next_event_if_input_available(&mut self) -> (r: bool)
        requires
            old(self).wf(),
        ensures
            (final(self)@, r) == old(self)@.woken_by_input(),
            final(self).wf(),
    {
        if self.active_interrupt_callback.is_some() || self.dispatcher.pending_wait_sleep_ticks == 0
            || self.dispatcher.pending_wait_next_event_return.is_none() {
            return false;
        }
        self.deliver_pending_wait_next_event_if_available()
    }

    /// Wakes a sleeping `WaitNextEvent` with a null event.
    pub fn wake_pending_wait_next_event_with_null_event_for_polling_input(&mut self) -> (r: bool)
        requires
            old(self).wf(),
        ensures
            (final(self)@, r) == old(self)@.woken_by_polling(),
            final(self).wf(),
    {
        if self.active_interrupt_callback.is_some() {
            return false;
        }
        let pc: u32 = self.cpu.read_reg(Register::PC);
        let sp: u32 = self.cpu.read_reg(Register::A7);
        self.dispatcher.poll_wait_next_event(&mut self.bus, pc, sp)
    }

    /// Gives the application instructions to run, should none be left.
    pub fn refill_foreground_budget_after_async_return(&mut self)
        requires
            old(self).wf(),
        ensures
            final(self)@ == old(self)@.foreground_refilled(),
            final(self).wf(),
    {
        if self.tick_budget <= 0 {
            self.tick_budget = if self.instructions_per_tick < 2 { 2 } else { self.instructions_per_tick as i32 };
        }
    }

    fn sleep_on(&mut self, cap: Option<u32>)
        requires
            old(self).wf(),
        ensures
            final(self)@ == old(self)@.slept(cap),
            final(self).wf(),
    {
        while self.dispatcher.pending_wait_sleep_ticks > 0 && !self.cap_reached(cap)
            invariant
                self.wf(),
                old(self)@.slept(cap) == self@.slept(cap),
            decreases self.dispatcher.pending_wait_sleep_ticks,
        {
            self.dispatcher.spend_sleep_tick();
            proof {
                lemma_ticked_keeps(self@);
            }
            self.tick_and_refill();
            if self.active_interrupt_callback.is_some() {
                return;
            }
        }
    }

    fn tick_times(&mut self, n: u32)
        requires
            old(self).wf(),
        ensures
            final(self)@ == old(self)@.ticked_times(n as nat),
            final(self).wf(),
    {
        let mut left: u32 = n;
        while left > 0
            invariant
                self.wf(),
                old(self)@.ticked_times(n as nat) == self@.ticked_times(left as nat),
            decreases left,
        {
            self.tick_and_refill();
            if self.active_interrupt_callback.is_some() {
                return;
            }
            left = left - 1;
        }
    }

    /// Serves a `WaitNextEvent` sleep.
    pub fn service_wait_sleep_ticks(&mut self, tick_cap: Option<u32>) -> (r: bool)
        requires
            old(self).wf(),
        ensures
            (final(self)@, r) == old(self)@.sleep_served(tick_cap),
            final(self).wf(),
    {
        if self.dispatcher.pending_wait_sleep_ticks == 0 || self.active_interrupt_callback.is_some() {
            return false;
        }
        if self.frozen_ticks.is_some() {
            self.dispatcher.end_sleep();
            return false;
        }
        if self.deliver_pending_wait_next_event_if_available() {
            return false;
        }
        self.continue_sleep(tick_cap)
    }

    fn continue_sleep(&mut self, tick_cap: Option<u32>) -> (r: bool)
        requires
            old(self).wf(),
        ensures
            (final(self)@, r) == old(self)@.sleep_continued(tick_cap),
            final(self).wf(),
    {
        if tick_cap.is_some() {
            if self.dispatcher.is_dialog_tracking() || self.dispatcher.shows_dialog(true) {
                self.dispatcher.end_sleep();
                return false;
            }
            self.sleep_on(tick_cap);
            if self.dispatcher.pending_wait_sleep_ticks > 0 && self.cap_reached(tick_cap) {
                return true;
            }
            self.dispatcher.unpark();
            return false;
        }
        match self.wait_sleep_cap_in_headless {
            Some(limit) => {
                let pending: u32 = self.dispatcher.pending_wait_sleep_ticks;
                let n: u32 = if !self.dispatcher.shows_dialog(false) && limit < pending { limit } else { pending };
                self.dispatcher.end_sleep();
                self.tick_times(n);
            },
            None => {
                self.sleep_on(None);
                self.dispatcher.unpark();
            },
        }
        false
    }

    fn finish_delay(&mut self)
        requires
            old(self).wf(),
        ensures
            final(self)@ == old(self)@.delay_result(),
            final(self).wf(),
    {
        if self.dispatcher.pending_delay_ticks == 0 {
            let ticks: u32 = self.bus.read_long(TICKS);
            self.cpu.write_reg(Register::D0, ticks);
        }
    }

    /// Serves a `Delay`.
    pub fn service_delay_ticks(&mut self, tick_cap: Option<u32>) -> (r: bool)
        requires
            old(self).wf(),
        ensures
            (final(self)@, r) == old(self)@.delay_served(tick_cap),
            final(self).wf(),
    {
        if self.dispatcher.pending_delay_ticks == 0 || self.active_interrupt_callback.is_some() {
            return false;
        }
        if self.frozen_ticks.is_some() {
            self.dispatcher.set_delay_ticks(0);
            return false;
        }
        while self.dispatcher.pending_delay_ticks > 0
            invariant
                self.wf(),
                old(self)@.delay_served(tick_cap) == self@.delayed(tick_cap),
            decreases self.dispatcher.pending_delay_ticks,
        {
            if self.cap_reached(tick_cap) {
                return true;
            }
            let left: u32 = self.dispatcher.pending_delay_ticks - 1;
            self.dispatcher.set_delay_ticks(left);
            proof {
                lemma_ticked_keeps(self@);
            }
            self.tick_and_refill();
            if self.active_interrupt_callback.is_some() {
                self.finish_delay();
                return false;
            }
        }
        self.finish_delay();
        false
    }

    /// An idle tick while a modal dialog waits for input.
    pub fn service_gui_modal_dialog_idle_tick(&mut self, tick_cap: Option<u32>) -> (r: bool)
        requires
            old(self).wf(),
        ensures
            (final(self)@, r) == old(self)@.modal_idle_ticked(tick_cap),
            final(self).wf(),
    {
        if self.active_interrupt_callback.is_some() || self.frozen_ticks.is_some() || self.cap_reached(tick_cap) {
            return true;
        }
        self.tick_and_refill();
        tick_cap.is_none() || self.cap_reached(tick_cap)
    }

    /// Lets the clock go on, from `target_tick` where it is given.
    pub fn unfreeze_ticks_to(&mut self, target_tick: Option<u32>)
        requires
            old(self).wf(),
        ensures
            final(self)@ == old(self)@.unfrozen_to(target_tick),
            final(self).wf(),
    {
        self.frozen_ticks = None;
        if let Some(t) = target_tick {
            self.bus.write_long(TICKS, t);
            self.dispatcher.set_tick_count(t);
        }
    }
}

} // verus!

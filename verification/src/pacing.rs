use vstd::prelude::*;

use crate::audio::{lemma_channels_shown, lemma_queues_served};
use crate::cpu::{CpuExit, CpuView};
use crate::laws::lemma_tick_count_after_tick;
use crate::run_loop::{batch_counted, batch_ended, behind_trap, trap_taken, turn_ran, turned, turns, SliceView};
use crate::runner::RunnerView;
use crate::slice::{executed, Flow, SliceOrder};
use crate::ticks::lemma_ticked_keeps;
use crate::trap::DispView;
use crate::trap_turn::idle_loop_trap;
use crate::traps::{TRAP_EVENT_AVAIL, TRAP_MODAL_DIALOG, TRAP_PT_IN_RECT, TRAP_TICK_COUNT};

verus! {

/// How far the clock may go, and whether no modal dialog may be shown.
pub struct Pace {
    pub tick: u32,
    pub quiet: bool,
}

/// The clock has not gone beyond the pace's tick, no application waits to be launched,
/// and no modal dialog is shown where none may be.
pub open spec fn paced(s: RunnerView, limit: Pace) -> bool {
    &&& s.disp.tick_count <= limit.tick
    &&& s.disp.pending_launch is None
    &&& limit.quiet ==> s.disp.dialog is None
    &&& 1 <= s.instructions_per_tick <= 0x7fff_ffff
}

/// The clock, the launch and the speed are the same, and no dialog was opened.
pub open spec fn steady(s: RunnerView, t: RunnerView) -> bool {
    &&& t.disp.tick_count == s.disp.tick_count
    &&& t.disp.pending_launch == s.disp.pending_launch
    &&& s.disp.dialog is None ==> t.disp.dialog is None
    &&& t.instructions_per_tick == s.instructions_per_tick
}

impl RunnerView {
    /// The machine when trap `opcode` begins: a trap that no idle loop contains ends the
    /// observation of one.
    pub open spec fn trap_begun(self, opcode: u16) -> RunnerView {
        if self.idle_cycle_probe is Some && !idle_loop_trap(opcode) {
            self.unwatched()
        } else {
            self
        }
    }

    /// The machine whose filter procedure trap `opcode` leads to, if it leads to one.
    #[verifier::opaque]
    pub open spec fn filter_reached(self, o: SliceOrder, opcode: u16) -> Option<RunnerView> {
        let (a, r) = self.toolbox_called(o, opcode);
        let b = a.trap_charged(opcode, o.tick_cap).0;
        let (c, hooked) = b.tracking_held(o, opcode, self.cpu.ppc).hook_called(opcode);
        let (d, drew) = c.drawn();
        if r is Ok && b.disp.refires(opcode) && !hooked && !drew && d.filter_due() {
            Some(d)
        } else {
            None
        }
    }

    /// The tick that a filter procedure is shown, which is the one in guest memory.
    pub open spec fn tick_shown(self) -> u32 {
        self.bus.word(self.disp.filter_result(), 0).get_long(crate::globals::TICKS)
    }

    /// A filter procedure that trap `opcode` leads to is shown a tick from `low` to
    /// `high`.
    pub open spec fn filter_shown(self, o: SliceOrder, opcode: u16, low: u32, high: u32) -> bool {
        self.trap_begun(opcode).filter_reached(o, opcode) matches Some(d) ==> low <= d.tick_shown() <= high
    }
}

/// Trap `opcode` may end the instructions of a turn from `s` at `c`.
pub open spec fn trap_reached(s: SliceView, c: SliceView, o: SliceOrder, opcode: u16) -> bool {
    let (a, first, called, pc) = s.m.turn_opened(o, s.called);
    &&& first is Run
    &&& exists|b: RunnerView, e: RunnerView, u: RunnerView, max: int, n: u32|
        {
            &&& #[trigger] a.idle_taken(b, o, false)
            &&& !b.bad_pc(pc)
            &&& e == b.precharged(o).0
            &&& !b.precharged(o).2
            &&& max == e.batch_size(o, s.count, b.charging(o))
            &&& #[trigger] e.ran(u, max, n, CpuExit::Aline(opcode))
            &&& c == batch_counted(
                SliceView { m: u, called, ..s },
                o,
                n,
                CpuExit::Aline(opcode),
                b.precharged(o).1,
            )
        }
}

/// Whatever the instructions of a turn from `s` do, a filter procedure that is called
/// behind them is shown a tick from `low` to `high`: the guest has not set the tick in
/// memory to another.
pub open spec fn filters_shown(s: SliceView, o: SliceOrder, low: u32, high: u32) -> bool {
    forall|c: SliceView, opcode: u16| #[trigger]
        trap_reached(s, c, o, opcode) ==> c.m.filter_shown(o, opcode, low, high)
}

/// The host's clock and the tick cap are not beyond `limit`.
pub open spec fn ordered(o: SliceOrder, limit: Pace) -> bool {
    &&& o.tick_cap matches Some(cap) && cap <= limit.tick
    &&& o.host_tick matches Some(tick) && tick <= limit.tick
}

proof fn lemma_ticked(s: RunnerView, cap: u32, limit: Pace)
    requires
        paced(s, limit),
        s.tick() < cap <= limit.tick,
    ensures
        paced(s.ticked(), limit),
{
    lemma_ticked_keeps(s);
    lemma_tick_count_after_tick(s);
}

proof fn lemma_budget_ticks(s: RunnerView, cap: u32, limit: Pace)
    requires
        paced(s, limit),
        cap <= limit.tick,
    ensures
        paced(s.budget_ticks(Some(cap)).0, limit),
    decreases (if s.tick_budget <= 0 { 1 - s.tick_budget } else { 0 }),
{
    if s.tick_budget > 0 || s.frozen_ticks is Some || s.reached(Some(cap)) {
    } else {
        lemma_ticked_keeps(s);
        lemma_ticked(s, cap, limit);
        let t = RunnerView { tick_budget: (s.tick_budget + s.instructions_per_tick) as i32, ..s.ticked() };
        if t.active is None && !t.reached(Some(cap)) {
            lemma_budget_ticks(t, cap, limit);
        }
    }
}

proof fn lemma_charged(s: RunnerView, units: i32, cap: u32, limit: Pace)
    requires
        paced(s, limit),
        cap <= limit.tick,
    ensures
        paced(s.charged(units, Some(cap)).0, limit),
{
    if units > 0 && s.active is None {
        lemma_budget_ticks(RunnerView { tick_budget: crate::ticks::lowered(s.tick_budget, units), ..s }, cap, limit);
    }
}

proof fn lemma_slept(s: RunnerView, cap: u32, limit: Pace)
    requires
        paced(s, limit),
        cap <= limit.tick,
    ensures
        paced(s.slept(Some(cap)), limit),
    decreases s.disp.pending_wait_sleep_ticks,
{
    if s.disp.pending_wait_sleep_ticks == 0 || s.reached(Some(cap)) {
    } else {
        let spent = RunnerView {
            disp: DispView { pending_wait_sleep_ticks: (s.disp.pending_wait_sleep_ticks - 1) as u32, ..s.disp },
            ..s
        };
        lemma_ticked_keeps(spent);
        lemma_ticked(spent, cap, limit);
        let t = spent.ticked().refilled();
        if t.active is None {
            lemma_slept(t, cap, limit);
        }
    }
}

proof fn lemma_delayed(s: RunnerView, cap: u32, limit: Pace)
    requires
        paced(s, limit),
        cap <= limit.tick,
    ensures
        paced(s.delayed(Some(cap)).0, limit),
    decreases s.disp.pending_delay_ticks,
{
    if s.disp.pending_delay_ticks == 0 || s.reached(Some(cap)) {
    } else {
        let spent = RunnerView {
            disp: DispView { pending_delay_ticks: (s.disp.pending_delay_ticks - 1) as u32, ..s.disp },
            ..s
        };
        lemma_ticked_keeps(spent);
        lemma_ticked(spent, cap, limit);
        let t = spent.ticked().refilled();
        if t.active is None {
            lemma_delayed(t, cap, limit);
        }
    }
}

proof fn lemma_ticked_until(s: RunnerView, n: nat, cap: u32, limit: Pace)
    requires
        paced(s, limit),
        cap <= limit.tick,
    ensures
        paced(s.ticked_until(n, Some(cap)).0, limit),
    decreases n,
{
    if n > 0 && !s.reached(Some(cap)) {
        lemma_ticked(s, cap, limit);
        if s.ticked().active is None {
            lemma_ticked_until(s.ticked(), (n - 1) as nat, cap, limit);
        }
    }
}

proof fn lemma_event_delivered(s: RunnerView)
    ensures
        steady(s, s.event_delivered().0),
{
    reveal(DispView::delivered);
}

proof fn lemma_sleep_served(s: RunnerView, cap: u32, limit: Pace)
    requires
        paced(s, limit),
        cap <= limit.tick,
    ensures
        paced(s.sleep_served(Some(cap)).0, limit),
{
    lemma_event_delivered(s);
    lemma_slept(s.event_delivered().0, cap, limit);
}

proof fn lemma_waits_served(s: RunnerView, o: SliceOrder, limit: Pace)
    requires
        paced(s, limit),
        ordered(o, limit),
    ensures
        paced(s.waits_served(o).0, limit),
{
    reveal(RunnerView::waits_served);
    let cap = o.tick_cap->0;
    lemma_sleep_served(s, cap, limit);
    let a = if o.sound_work_only {
        s
    } else {
        s.sleep_served(o.tick_cap).0
    };
    lemma_delayed(a, cap, limit);
}

proof fn lemma_sound_called(s: RunnerView)
    ensures
        steady(s, s.sound_called().0),
{
    reveal(RunnerView::sound_fired);
    reveal(RunnerView::doubleback_fired);
    reveal(RunnerView::interrupted);
}

proof fn lemma_work_called(s: RunnerView, o: SliceOrder, called: bool)
    ensures
        steady(s, s.work_called(o, called).0),
{
    reveal(RunnerView::work_called);
    let a = if o.sound_work_only {
        s
    } else {
        s.file_completed().0
    };
    assert(steady(s, a)) by {
        reveal(RunnerView::file_completed);
        reveal(RunnerView::interrupted);
    }
    lemma_sound_called(a);
    let b = if a.active is None && !called {
        a.sound_called().0
    } else {
        a
    };
    assert(steady(b, b.timer_fired(b.timer_now()))) by {
        reveal(RunnerView::timer_fired);
        reveal(RunnerView::interrupted);
    }
}

proof fn lemma_draw_called(s: RunnerView, addr: u32, item: i16, dialog: u32, modeless: bool)
    ensures
        steady(s, s.draw_called(addr, item, dialog, modeless).0),
{
    reveal(RunnerView::draw_called);
    reveal(RunnerView::interrupted);
}

proof fn lemma_modeless_drawn(s: RunnerView)
    ensures
        steady(s, s.modeless_drawn().0),
    decreases s.disp.modeless_dialog_draw_proc_queue.len(),
{
    reveal(RunnerView::modeless_drawn);
    let queue = s.disp.modeless_dialog_draw_proc_queue;
    if s.active is Some || queue.len() == 0 {
    } else {
        let taken = RunnerView {
            disp: DispView {
                modeless_dialog_draw_proc_queue: queue.subrange(1, queue.len() as int),
                ..s.disp
            },
            ..s
        };
        lemma_draw_called(taken, queue[0].1, queue[0].2, queue[0].0, true);
        lemma_modeless_drawn(taken);
    }
}

proof fn lemma_callback_left(s: RunnerView, o: SliceOrder)
    ensures
        steady(s, s.callback_left(o).0),
{
    reveal(RunnerView::callback_left);
    lemma_modeless_drawn(s.callback_ended());
}

proof fn lemma_turn_opened(s: RunnerView, o: SliceOrder, called: bool, limit: Pace)
    requires
        paced(s, limit),
        ordered(o, limit),
    ensures
        paced(s.turn_opened(o, called).0, limit),
{
    reveal(RunnerView::turn_opened);
    lemma_work_called(s, o, called);
    let a = s.work_called(o, called).0;
    lemma_waits_served(a, o, limit);
    lemma_callback_left(a.waits_served(o).0, o);
}

proof fn lemma_sleeps_on(s: RunnerView, t: RunnerView, trap_pc: u32, wake_tick: u32, cap: u32, now: CpuView, r: bool, limit: Pace)
    requires
        s.sleeps_on(t, trap_pc, wake_tick, cap, now, r),
        paced(s, limit),
        cap <= limit.tick,
    ensures
        paced(t, limit),
{
    lemma_ticked_until(s, wake_tick.wrapping_sub(s.disp.tick_count) as nat, cap, limit);
}

proof fn lemma_idle_taken(s: RunnerView, t: RunnerView, o: SliceOrder, stays: bool, limit: Pace)
    requires
        s.idle_taken(t, o, stays),
        paced(s, limit),
        ordered(o, limit),
    ensures
        paced(t, limit),
{
    if !o.sound_work_only {
        let now = s.cpu.visible();
        if let Some(sleep) = s.idle_cycle_sleep {
            if s.undisturbed(sleep, now) {
                let taken = RunnerView {
                    bus: crate::memory::BusView { probe: None, ..s.bus },
                    idle_cycle_sleep: None,
                    ..s
                };
                lemma_sleeps_on(taken, t, sleep.trap_pc, sleep.wake_tick, o.tick_cap->0, now, stays, limit);
            }
        }
    }
}

proof fn lemma_passes_null_event(s: RunnerView, t: RunnerView, trap_pc: u32, cap: u32, r: bool, limit: Pace)
    requires
        s.passes_null_event(t, trap_pc, Some(cap), r),
        paced(s, limit),
        cap <= limit.tick,
    ensures
        paced(t, limit),
{
    if !s.watches_elsewhere(trap_pc) {
        let wake = s.disp.tick_count.wrapping_add(1);
        let now = s.cpu.visible();
        if let Some(probe) = s.idle_cycle_probe {
            if s.came_round(probe, trap_pc, now) && s.disp.tick_count < cap {
                let seen = RunnerView {
                    bus: crate::memory::BusView { probe: None, ..s.bus },
                    idle_cycle_probe: None,
                    idle_cycle_last_seen: Some((trap_pc, s.disp.tick_count)),
                    ..s
                };
                lemma_sleeps_on(seen, t, trap_pc, wake, cap, now, r, limit);
            }
        }
    }
}

proof fn lemma_may_stay_idle(s: RunnerView, t: RunnerView, idle: bool, pc: u32, cap: u32, otherwise: Flow, flow: Flow, limit: Pace)
    requires
        s.may_stay_idle(t, idle, pc, Some(cap), otherwise, flow),
        paced(s, limit),
        cap <= limit.tick,
    ensures
        paced(t, limit),
{
    if idle {
        if flow is Leave && s.passes_null_event(t, pc, Some(cap), true) {
            lemma_passes_null_event(s, t, pc, cap, true, limit);
        } else {
            lemma_passes_null_event(s, t, pc, cap, false, limit);
        }
    }
}

proof fn lemma_tick_count_read(s: RunnerView, o: SliceOrder, limit: Pace)
    requires
        paced(s, limit),
        ordered(o, limit),
    ensures
        paced(s.tick_count_read(o).0, limit),
{
    reveal(RunnerView::tick_count_read);
    let a = RunnerView {
        bus: s.bus.long(s.cpu.sp(), s.disp.tick_count),
        disp: s.disp.trapped_inline(TRAP_TICK_COUNT),
        ..s
    };
    let pc = s.cpu.ppc.wrapping_add(2);
    if let Some(wait) = crate::spin::spin_wait(a.cpu, a.bus, pc) {
        lemma_ticked_until(a, wait.until.wrapping_sub(a.disp.tick_count) as nat, o.tick_cap->0, limit);
    }
}

proof fn lemma_launch_served(s: RunnerView, yielded: bool, exited: bool)
    requires
        s.disp.pending_launch is None,
    ensures
        s.launch_served(yielded, exited) == (s, false),
{
}

proof fn lemma_trap_charged(s: RunnerView, opcode: u16, cap: u32, limit: Pace)
    requires
        paced(s, limit),
        cap <= limit.tick,
    ensures
        paced(s.trap_charged(opcode, Some(cap)).0, limit),
{
    reveal(RunnerView::trap_charged);
    let a = s.noted(opcode);
    let b = RunnerView { disp: DispView { hle_tick_cost: 0, ..a.disp }, ..a };
    lemma_charged(b, crate::trap_turn::saturated(crate::policy::trap_cost(opcode), a.disp.hle_tick_cost), cap, limit);
}

proof fn lemma_drawn(s: RunnerView)
    ensures
        steady(s, s.drawn().0),
{
    reveal(RunnerView::modal_drawn);
    lemma_modeless_drawn(s);
    if let Some(d) = s.disp.dialog {
        let queue = d.draw_proc_queue;
        if queue.len() > 0 {
            let rest = crate::dialog::DialogView { draw_proc_queue: queue.subrange(1, queue.len() as int), ..d };
            lemma_draw_called(
                RunnerView { disp: DispView { dialog: Some(rest), ..s.disp }, ..s },
                queue[0].0,
                queue[0].1,
                d.dialog_ptr,
                false,
            );
        }
    }
}

proof fn lemma_hook_called(s: RunnerView, opcode: u16)
    ensures
        steady(s, s.hook_called(opcode).0),
{
    reveal(RunnerView::interrupted);
}

proof fn lemma_filter_called(s: RunnerView)
    ensures
        s.filter_called().0.disp.tick_count == s.disp.tick_count || s.filter_called().0.disp.tick_count == s.tick_shown(),
        s.filter_called().0.disp.pending_launch == s.disp.pending_launch,
        s.filter_called().0.instructions_per_tick == s.instructions_per_tick,
{
    reveal(RunnerView::interrupted);
}

proof fn lemma_tracking_on(s: RunnerView, o: SliceOrder, opcode: u16, pc: u32, limit: Pace)
    requires
        paced(s, limit),
        ordered(o, limit),
        !limit.quiet ==> {
            let (c, hooked) = s.tracking_held(o, opcode, pc).hook_called(opcode);
            let (d, drew) = c.drawn();
            !hooked && !drew && d.filter_due() ==> d.tick_shown() <= limit.tick
        },
    ensures
        paced(s.tracking_on(o, opcode, pc).0, limit),
{
    reveal(RunnerView::tracking_on);
    let a = s.tracking_held(o, opcode, pc);
    assert(paced(a, limit)) by {
        reveal(RunnerView::tracking_held);
    }
    let b = a.tracking_called(opcode).0;
    assert(paced(b, limit)) by {
        reveal(RunnerView::tracking_called);
        lemma_hook_called(a, opcode);
        let c = a.hook_called(opcode).0;
        lemma_drawn(c);
        lemma_filter_called(c.drawn().0);
    }
    let cap = o.tick_cap->0;
    if !b.reached(o.tick_cap) {
        lemma_ticked(b, cap, limit);
    }
}

proof fn lemma_trap_left(s: RunnerView, o: SliceOrder, opcode: u16, tracks: bool, limit: Pace)
    requires
        paced(s, limit),
        ordered(o, limit),
    ensures
        paced(s.trap_left(o, opcode, tracks).0, limit),
{
    reveal(RunnerView::trap_left);
    let a = if s.frozen_ticks is Some {
        s.unfrozen_to(o.host_tick)
    } else {
        s
    };
    lemma_modeless_drawn(a);
    let b = if tracks {
        a
    } else {
        a.modeless_drawn().0
    };
    lemma_delayed(b, o.tick_cap->0, limit);
    lemma_launch_served(b.delay_served(o.tick_cap).0, crate::policy::event_yield(opcode), false);
}

proof fn lemma_trap_dispatched(s: RunnerView, o: SliceOrder, opcode: u16, limit: Pace)
    requires
        paced(s, limit),
        ordered(o, limit),
        limit.quiet || (s.filter_reached(o, opcode) matches Some(d) ==> d.tick_shown() <= limit.tick),
    ensures
        paced(s.trap_dispatched(o, opcode).0, limit),
{
    reveal(RunnerView::trap_dispatched);
    let a = s.toolbox_called(o, opcode).0;
    assert(steady(s, a)) by {
        reveal(RunnerView::toolbox_called);
        reveal(crate::traps::served);
    }
    reveal(RunnerView::trap_done);
    reveal(RunnerView::trap_ended);
    lemma_launch_served(a, false, true);
    lemma_trap_charged(a, opcode, o.tick_cap->0, limit);
    let b = a.trap_charged(opcode, o.tick_cap).0;
    if s.toolbox_called(o, opcode).1 is Ok {
        if b.disp.refires(opcode) {
            assert(!limit.quiet ==> {
                let (c, hooked) = b.tracking_held(o, opcode, s.cpu.ppc).hook_called(opcode);
                let (d, drew) = c.drawn();
                !hooked && !drew && d.filter_due() ==> d.tick_shown() <= limit.tick
            }) by {
                reveal(RunnerView::filter_reached);
            }
            lemma_tracking_on(b, o, opcode, s.cpu.ppc, limit);
            lemma_trap_left(b.tracking_on(o, opcode, s.cpu.ppc).0, o, opcode, true, limit);
        } else {
            lemma_trap_left(b, o, opcode, false, limit);
        }
    }
}

proof fn lemma_refired(s: RunnerView, cap: u32, room: int, left: nat, limit: Pace)
    requires
        paced(s, limit),
        cap <= limit.tick,
    ensures
        paced(s.refired(Some(cap), room, left).0, limit),
    decreases left,
{
    if left > 0 && room > 0 {
        let (a, capped) = s.charged(1, Some(cap));
        lemma_charged(s, 1, cap, limit);
        if !capped {
            lemma_refired(
                RunnerView {
                    total_instructions: a.total_instructions.wrapping_add(1),
                    disp: a.disp.counted_inline(TRAP_MODAL_DIALOG),
                    ..a
                },
                cap,
                room - 1,
                (left - 1) as nat,
                limit,
            );
        }
    }
}

proof fn lemma_traps(
    s: RunnerView,
    t: RunnerView,
    o: SliceOrder,
    opcode: u16,
    room: int,
    k: nat,
    capped: bool,
    flow: Flow,
    limit: Pace,
)
    requires
        s.traps(t, o, opcode, room, k, capped, flow),
        paced(s, limit),
        ordered(o, limit),
        limit.quiet || s.filter_shown(o, opcode, 0, limit.tick),
    ensures
        paced(t, limit),
{
    reveal(RunnerView::traps);
    let a = s.trap_begun(opcode);
    let cap = o.tick_cap->0;
    if opcode == TRAP_TICK_COUNT {
        lemma_tick_count_read(a, o, limit);
    } else if opcode == TRAP_MODAL_DIALOG && a.dialog_at_rest(o) {
        reveal(RunnerView::dialog_refired);
        lemma_refired(
            RunnerView { disp: a.disp.trapped_inline(TRAP_MODAL_DIALOG), ..a },
            cap,
            room,
            crate::trap_turn::REFIRE_BATCH as nat,
            limit,
        );
    } else if opcode == TRAP_PT_IN_RECT {
        reveal(RunnerView::rect_asked);
        let b = RunnerView {
            bus: crate::traps::pt_in_rect(a.bus, a.cpu.sp()),
            cpu: crate::traps::popped(a.cpu, 8),
            disp: a.disp.rect_trapped(a.cpu.ppc),
            ..a
        };
        lemma_launch_served(b, true, false);
    } else if opcode == TRAP_EVENT_AVAIL {
        assert(steady(a, a.event_asked())) by {
            reveal(RunnerView::event_asked);
        }
        lemma_may_stay_idle(
            a.event_asked(),
            t,
            a.event_asked().null_event(opcode) && a.skips_waits(o),
            a.cpu.ppc,
            cap,
            Flow::Again,
            flow,
            limit,
        );
    } else {
        lemma_trap_dispatched(a, o, opcode, limit);
        let (u, hit, f, null) = a.trap_dispatched(o, opcode);
        lemma_may_stay_idle(u, t, f is Run && null && u.skips_waits(o), a.cpu.ppc, cap, f, flow, limit);
    }
}

proof fn lemma_accounted(s: RunnerView, o: SliceOrder, n: u32, exit: CpuExit, ahead: bool, limit: Pace)
    requires
        paced(s, limit),
        ordered(o, limit),
    ensures
        paced(s.accounted(o, n, exit, ahead).0, limit),
{
    reveal(RunnerView::accounted);
    let k = executed(n, exit);
    let c = RunnerView { total_instructions: s.total_instructions.wrapping_add(k as u64), ..s };
    lemma_charged(c, k as i32, o.tick_cap->0, limit);
    lemma_charged(c, (k - 1) as i32, o.tick_cap->0, limit);
}

proof fn lemma_batch_ended(s: SliceView, t: SliceView, o: SliceOrder, n: u32, exit: CpuExit, ahead: bool, flow: Flow, limit: Pace)
    requires
        batch_ended(s, t, o, n, exit, ahead, flow),
        paced(s.m, limit),
        ordered(o, limit),
        limit.quiet || (exit matches CpuExit::Aline(op) ==> batch_counted(s, o, n, exit, ahead).m.filter_shown(
            o,
            op,
            0,
            limit.tick,
        )),
    ensures
        paced(t.m, limit),
{
    reveal(batch_ended);
    lemma_accounted(s.m, o, n, exit, ahead, limit);
    let c = batch_counted(s, o, n, exit, ahead);
    if let CpuExit::Aline(opcode) = exit {
        reveal(trap_taken);
        let (u, k, capped, f) = choose|u: RunnerView, k: nat, capped: bool, f: Flow|
            {
                &&& #[trigger] c.m.traps(u, o, opcode, c.room(o), k, capped, f)
                &&& k <= 4 || k <= c.room(o)
                &&& (t, flow) == behind_trap(c, u, k, capped, f)
            };
        lemma_traps(c.m, u, o, opcode, c.room(o), k, capped, f, limit);
    }
}

proof fn lemma_turn_ran(s: SliceView, t: SliceView, o: SliceOrder, pc: u32, flow: Flow, limit: Pace)
    requires
        turn_ran(s, t, o, pc, flow),
        paced(s.m, limit),
        ordered(o, limit),
        limit.quiet || {
            let (e, ahead, over) = s.m.precharged(o);
            forall|u: RunnerView, n: u32, op: u16|
                #![trigger e.ran(u, e.batch_size(o, s.count, s.m.charging(o)), n, CpuExit::Aline(op))]
                !s.m.bad_pc(pc) && !over && e.ran(
                    u,
                    e.batch_size(o, s.count, s.m.charging(o)),
                    n,
                    CpuExit::Aline(op),
                ) ==> batch_counted(SliceView { m: u, ..s }, o, n, CpuExit::Aline(op), ahead).m.filter_shown(
                    o,
                    op,
                    0,
                    limit.tick,
                )
        },
    ensures
        paced(t.m, limit),
{
    reveal(turn_ran);
    if !s.m.bad_pc(pc) {
        let (b, ahead, over) = s.m.precharged(o);
        assert(paced(b, limit)) by {
            reveal(RunnerView::precharged);
            lemma_charged(s.m, 1, o.tick_cap->0, limit);
        }
        if !over {
            let max = b.batch_size(o, s.count, s.m.charging(o));
            let (u, n, exit) = choose|u: RunnerView, n: u32, exit: CpuExit|
                {
                    &&& 1 <= max <= crate::policy::BATCH_CHUNK
                    &&& #[trigger] b.ran(u, max, n, exit)
                    &&& batch_ended(SliceView { m: u, ..s }, t, o, n, exit, ahead, flow)
                };
            assert(steady(b, u));
            lemma_batch_ended(SliceView { m: u, ..s }, t, o, n, exit, ahead, flow, limit);
        }
    }
}

/// A turn keeps the pace.
pub proof fn lemma_turn_keeps_pace(s: SliceView, t: SliceView, o: SliceOrder, flow: Flow, limit: Pace)
    requires
        turned(s, t, o, flow),
        paced(s.m, limit),
        ordered(o, limit),
        limit.quiet || filters_shown(s, o, 0, limit.tick),
    ensures
        paced(t.m, limit),
{
    reveal(turned);
    lemma_turn_opened(s.m, o, s.called, limit);
    let (a, first, called, pc) = s.m.turn_opened(o, s.called);
    if first is Run {
        let (b, stays) = choose|b: RunnerView, stays: bool|
            {
                let u = SliceView { m: b, called, ..s };
                &&& #[trigger] a.idle_taken(b, o, stays)
                &&& if stays {
                    t == u && flow is Leave
                } else {
                    turn_ran(u, t, o, pc, flow)
                }
            };
        lemma_idle_taken(a, b, o, stays, limit);
        if !stays {
            let m = SliceView { m: b, called, ..s };
            if !limit.quiet {
                let (e, ahead, over) = b.precharged(o);
                assert forall|u: RunnerView, n: u32, op: u16|
                    #![trigger e.ran(u, e.batch_size(o, m.count, b.charging(o)), n, CpuExit::Aline(op))]
                    !b.bad_pc(pc) && !over && e.ran(
                        u,
                        e.batch_size(o, m.count, b.charging(o)),
                        n,
                        CpuExit::Aline(op),
                    ) implies batch_counted(SliceView { m: u, ..m }, o, n, CpuExit::Aline(op), ahead).m.filter_shown(
                    o,
                    op,
                    0,
                    limit.tick,
                ) by {
                    let c = batch_counted(SliceView { m: u, ..m }, o, n, CpuExit::Aline(op), ahead);
                    assert(a.idle_taken(b, o, false));
                    assert(trap_reached(s, c, o, op));
                }
            }
            lemma_turn_ran(m, t, o, pc, flow, limit);
        }
    }
}

proof fn lemma_turns_keep_pace(path: Seq<SliceView>, s: SliceView, o: SliceOrder, limit: Pace, i: int)
    requires
        turns(path, s, o),
        paced(s.m, limit),
        ordered(o, limit),
        limit.quiet || forall|j: int| 0 <= j < path.len() ==> filters_shown(#[trigger] path[j], o, 0, limit.tick),
        0 <= i < path.len(),
    ensures
        paced(path[i].m, limit),
    decreases i,
{
    if i > 0 {
        lemma_turns_keep_pace(path, s, o, limit, i - 1);
        assert(path[i - 1].goes_on(o));
        lemma_turn_keeps_pace(path[i - 1], path[i], o, Flow::Again, limit);
    }
}

proof fn lemma_mixed(s: RunnerView, n: nat)
    ensures
        steady(s, s.mixed(n)),
    decreases n,
{
    if n > 0 {
        lemma_queues_served(s.buffers_loaded());
        let a = s.buffers_loaded().queues_served();
        let k = a.disp.sound.next_chunk(n);
        let out = a.disp.sound.mixing(k);
        let b = a.with_sound(a.disp.sound.after_mixing(k));
        let c = b.with_sound(b.disp.sound.released());
        if out.len() == 0 || k == 0 || k > n {
        } else {
            lemma_mixed(c.sounded(out), (n - k) as nat);
        }
    }
}

proof fn lemma_framed(s: RunnerView, o: SliceOrder, called: bool)
    ensures
        steady(s, s.framed(o, called)),
{
    reveal(RunnerView::frame_finished);
    let m = RunnerView { bus: s.disp.redrawn(s.bus), ..s };
    let a = m.buffers_loaded();
    lemma_queues_served(a);
    lemma_mixed(a.queues_served(), o.audio_samples as nat);
    lemma_channels_shown(a.queues_served().mixed(o.audio_samples as nat));
    lemma_sound_called(a.queues_served().mixed(o.audio_samples as nat).channels_shown());
}

proof fn lemma_left(s: SliceView, o: SliceOrder)
    ensures
        steady(s.m, RunnerView::left(s, o)),
{
    lemma_framed(s.m.unobserved(), o, s.called || o.sound_work_only);
}

proof fn lemma_slice_ends(path: Seq<SliceView>, s: RunnerView, o: SliceOrder, t: RunnerView, r: (usize, bool), limit: Pace)
    requires
        turns(path, s.slice(), o),
        RunnerView::slice_ends(path, o, t, r),
        paced(s, limit),
        ordered(o, limit),
        limit.quiet || forall|j: int| 0 <= j < path.len() ==> filters_shown(#[trigger] path[j], o, 0, limit.tick),
    ensures
        t.disp.tick_count <= limit.tick,
{
    lemma_turns_keep_pace(path, s.slice(), o, limit, path.len() - 1);
    let last = path.last();
    if !last.goes_on(o) {
        lemma_left(last, o);
    } else {
        let (u, flow) = choose|u: SliceView, flow: Flow|
            {
                &&& #[trigger] turned(last, u, o, flow)
                &&& r.0 == u.count
                &&& match flow {
                    Flow::Leave => t == RunnerView::left(u, o) && r.1,
                    Flow::Halt => t == u.m && !r.1,
                    Flow::Yield => t == u.m.framed(o, u.called) && r.1,
                    _ => false,
                }
            };
        lemma_turn_keeps_pace(last, u, o, flow, limit);
        if flow is Leave {
            lemma_left(u, o);
        } else if flow is Yield {
            lemma_framed(u.m, o, u.called);
        }
    }
}

proof fn lemma_mixed_watches(s: RunnerView, n: nat)
    ensures
        s.mixed(n).idle_cycle_probe == s.idle_cycle_probe,
        s.mixed(n).total_instructions == s.total_instructions,
        s.mixed(n).cpu == s.cpu,
    decreases n,
{
    if n > 0 {
        lemma_queues_served(s.buffers_loaded());
        let a = s.buffers_loaded().queues_served();
        let k = a.disp.sound.next_chunk(n);
        let out = a.disp.sound.mixing(k);
        let b = a.with_sound(a.disp.sound.after_mixing(k));
        let c = b.with_sound(b.disp.sound.released());
        if out.len() == 0 || k == 0 || k > n {
        } else {
            lemma_mixed_watches(c.sounded(out), (n - k) as nat);
        }
    }
}

/// Mixing sound leaves the clock, runs no instruction, and neither begins nor ends
/// the observation of a loop.
pub proof fn lemma_audio_leaves_clock(s: RunnerView, n: nat, called: bool)
    ensures
        s.audio_finished(n, called).disp.tick_count == s.disp.tick_count,
        s.audio_finished(n, called).total_instructions == s.total_instructions,
        s.audio_finished(n, called).idle_cycle_probe == s.idle_cycle_probe,
{
    lemma_queues_served(s.buffers_loaded());
    let a = s.buffers_loaded().queues_served();
    lemma_mixed(a, n);
    lemma_mixed_watches(a, n);
    lemma_channels_shown(a.mixed(n));
    lemma_sound_called(a.mixed(n).channels_shown());
    reveal(RunnerView::sound_fired);
    reveal(RunnerView::doubleback_fired);
    reveal(RunnerView::interrupted);
}

/// The observation of a loop stays within one slice: a slice begins without one, and
/// leaves none behind unless it halts or yields.
pub proof fn lemma_observation_stays_in_slice(s: RunnerView, last: SliceView, o: SliceOrder)
    ensures
        s.slice().m.idle_cycle_probe is None,
        RunnerView::left(last, o).idle_cycle_probe is None,
{
    reveal(RunnerView::frame_finished);
    let m = last.m.unobserved();
    lemma_audio_leaves_clock(
        RunnerView { bus: m.disp.redrawn(m.bus), ..m },
        o.audio_samples as nat,
        last.called || o.sound_work_only,
    );
}

/// The later of two ticks.
pub open spec fn later(a: u32, b: u32) -> u32 {
    if a < b {
        b
    } else {
        a
    }
}

/// A slice with a tick cap, through the turns of `path`, never takes the clock beyond
/// it, or beyond where the clock stood where that was later, whatever the guest does: by
/// instructions, sleeps, delays, skipped wait loops, modal dialogs or the clock's
/// release. Ticks in guest memory shows no later tick either, unless the guest has set
/// it to another than the clock's. No application may wait to be launched, and a filter
/// procedure, which is shown the tick in guest memory, may not be shown one that the
/// guest has set to a later tick.
pub proof fn lemma_slice_stops_at_cap(
    s: RunnerView,
    max_steps: usize,
    cap: u32,
    audio_samples: usize,
    yield_for_ui: bool,
    sound_work_only: bool,
    finish_frame: bool,
    path: Seq<SliceView>,
    t: RunnerView,
    r: (usize, bool),
)
    requires
        s.disp.pending_launch is None,
        1 <= s.instructions_per_tick <= 0x7fff_ffff,
        s.frozen_ticks matches Some(tick) ==> tick <= later(s.disp.tick_count, cap),
        ({
            let o = s.order(max_steps, Some(cap), audio_samples, yield_for_ui, sound_work_only, finish_frame);
            &&& turns(path, s.slice(), o)
            &&& RunnerView::slice_ends(path, o, t, r)
            &&& forall|j: int|
                0 <= j < path.len() ==> filters_shown(#[trigger] path[j], o, 0, later(s.disp.tick_count, cap))
        }),
    ensures
        t.disp.tick_count <= later(s.disp.tick_count, cap),
        t.tick() == t.disp.tick_count ==> t.tick() <= later(s.disp.tick_count, cap),
{
    let o = s.order(max_steps, Some(cap), audio_samples, yield_for_ui, sound_work_only, finish_frame);
    lemma_slice_ends(path, s, o, t, r, Pace { tick: later(s.disp.tick_count, cap), quiet: false });
}

/// The same of any slice that begins without a modal dialog.
pub proof fn lemma_slice_without_dialog_stops_at_cap(
    s: RunnerView,
    max_steps: usize,
    cap: u32,
    audio_samples: usize,
    yield_for_ui: bool,
    sound_work_only: bool,
    finish_frame: bool,
    t: RunnerView,
    r: (usize, bool),
)
    requires
        s.slice_may_end(s.order(max_steps, Some(cap), audio_samples, yield_for_ui, sound_work_only, finish_frame), t, r),
        s.disp.pending_launch is None,
        s.disp.dialog is None,
        1 <= s.instructions_per_tick <= 0x7fff_ffff,
        s.frozen_ticks matches Some(tick) ==> tick <= later(s.disp.tick_count, cap),
    ensures
        t.disp.tick_count <= later(s.disp.tick_count, cap),
        t.tick() == t.disp.tick_count ==> t.tick() <= later(s.disp.tick_count, cap),
{
    let o = s.order(max_steps, Some(cap), audio_samples, yield_for_ui, sound_work_only, finish_frame);
    let path = choose|path: Seq<SliceView>| #[trigger]
        turns(path, s.slice(), o) && RunnerView::slice_ends(path, o, t, r);
    lemma_slice_ends(path, s, o, t, r, Pace { tick: later(s.disp.tick_count, cap), quiet: true });
}

/// Only sound callbacks run, and no tick cap is set.
pub open spec fn sound_only(o: SliceOrder) -> bool {
    o.sound_work_only && o.tick_cap is None && o.host_tick is None && o.yield_for_ui
}

/// No application waits to be launched, wait loops are not skipped against the rule,
/// and no modal dialog is shown where `quiet` says so.
pub open spec fn undisturbed_sound(s: RunnerView, quiet: bool) -> bool {
    &&& s.disp.pending_launch is None
    &&& quiet ==> s.disp.dialog is None
    &&& !s.config.spin_fastfwd_force_on
}

/// The clock, the launch and the settings are the same, and no dialog was opened.
spec fn unmoved(s: RunnerView, t: RunnerView) -> bool {
    steady(s, t) && t.config == s.config
}

proof fn lemma_sound_work(s: RunnerView, o: SliceOrder, called: bool)
    requires
        sound_only(o),
    ensures
        s.work_called(o, called).0.config == s.config,
        s.work_called(o, called).1 is Run ==> s.work_called(o, called).0.active is Some,
{
    reveal(RunnerView::work_called);
    reveal(RunnerView::sound_fired);
    reveal(RunnerView::doubleback_fired);
    reveal(RunnerView::interrupted);
}

#[verifier::rlimit(40)]
proof fn lemma_sound_turn_opened(s: RunnerView, o: SliceOrder, called: bool)
    requires
        sound_only(o),
    ensures
        unmoved(s, s.turn_opened(o, called).0),
        s.turn_opened(o, called).1 is Run ==> s.turn_opened(o, called).0.active is Some,
{
    reveal(RunnerView::turn_opened);
    lemma_work_called(s, o, called);
    lemma_sound_work(s, o, called);
    let a = s.work_called(o, called).0;
    let b = a.waits_served(o).0;
    assert(unmoved(a, b) && b.active == a.active) by {
        reveal(RunnerView::waits_served);
    }
    lemma_callback_left(b, o);
    lemma_modeless_config(b.callback_ended());
    reveal(RunnerView::callback_left);
}

proof fn lemma_modeless_config(s: RunnerView)
    ensures
        s.modeless_drawn().0.config == s.config,
    decreases s.disp.modeless_dialog_draw_proc_queue.len(),
{
    reveal(RunnerView::modeless_drawn);
    reveal(RunnerView::draw_called);
    reveal(RunnerView::interrupted);
    let queue = s.disp.modeless_dialog_draw_proc_queue;
    if s.active is None && queue.len() > 0 {
        lemma_modeless_config(
            RunnerView {
                disp: DispView {
                    modeless_dialog_draw_proc_queue: queue.subrange(1, queue.len() as int),
                    ..s.disp
                },
                ..s
            },
        );
    }
}

proof fn lemma_sound_trap_dispatched(s: RunnerView, o: SliceOrder, opcode: u16, quiet: bool)
    requires
        sound_only(o),
        s.active is Some,
        undisturbed_sound(s, quiet),
        quiet || (s.filter_reached(o, opcode) matches Some(d) ==> d.tick_shown() == s.disp.tick_count),
    ensures
        unmoved(s, s.trap_dispatched(o, opcode).0),
{
    reveal(RunnerView::trap_dispatched);
    let a = s.toolbox_called(o, opcode).0;
    assert(unmoved(s, a) && a.active == s.active) by {
        reveal(RunnerView::toolbox_called);
        reveal(crate::traps::served);
    }
    lemma_launch_served(a, false, true);
    reveal(RunnerView::trap_done);
    reveal(RunnerView::trap_ended);
    let b = a.trap_charged(opcode, o.tick_cap).0;
    assert(unmoved(a, b) && b.active == a.active) by {
        reveal(RunnerView::trap_charged);
    }
    if s.toolbox_called(o, opcode).1 is Ok {
        if b.disp.refires(opcode) {
            let c = b.tracking_on(o, opcode, s.cpu.ppc).0;
            let h = b.tracking_held(o, opcode, s.cpu.ppc);
            assert(unmoved(b, h) && h.active == b.active) by {
                reveal(RunnerView::tracking_held);
            }
            assert(h.hook_called(opcode) == (h, false) && h.drawn() == (h, false));
            assert(!quiet && h.filter_due() ==> h.tick_shown() == s.disp.tick_count) by {
                reveal(RunnerView::filter_reached);
            }
            lemma_filter_called(h);
            assert(h.filter_called().0.active is Some && h.filter_called().0.config == h.config) by {
                reveal(RunnerView::interrupted);
            }
            assert(unmoved(b, c) && c.active is Some) by {
                reveal(RunnerView::tracking_on);
                reveal(RunnerView::tracking_called);
            }
            lemma_sound_trap_left(c, o, opcode, true);
        } else {
            lemma_sound_trap_left(b, o, opcode, false);
        }
    }
}

proof fn lemma_sound_trap_left(s: RunnerView, o: SliceOrder, opcode: u16, tracks: bool)
    requires
        sound_only(o),
        s.active is Some,
        s.disp.pending_launch is None,
    ensures
        unmoved(s, s.trap_left(o, opcode, tracks).0),
{
    reveal(RunnerView::trap_left);
    reveal(RunnerView::modeless_drawn);
    let a = if s.frozen_ticks is Some {
        s.unfrozen_to(o.host_tick)
    } else {
        s
    };
    lemma_launch_served(a, crate::policy::event_yield(opcode), false);
}

proof fn lemma_sound_traps(
    s: RunnerView,
    t: RunnerView,
    o: SliceOrder,
    opcode: u16,
    room: int,
    k: nat,
    capped: bool,
    flow: Flow,
    quiet: bool,
)
    requires
        s.traps(t, o, opcode, room, k, capped, flow),
        sound_only(o),
        s.active is Some,
        undisturbed_sound(s, quiet),
        quiet || s.filter_shown(o, opcode, s.disp.tick_count, s.disp.tick_count),
    ensures
        unmoved(s, t),
{
    reveal(RunnerView::traps);
    let a = s.trap_begun(opcode);
    if opcode == TRAP_TICK_COUNT {
        reveal(RunnerView::tick_count_read);
    } else if opcode == TRAP_PT_IN_RECT {
        reveal(RunnerView::rect_asked);
        let b = RunnerView {
            bus: crate::traps::pt_in_rect(a.bus, a.cpu.sp()),
            cpu: crate::traps::popped(a.cpu, 8),
            disp: a.disp.rect_trapped(a.cpu.ppc),
            ..a
        };
        lemma_launch_served(b, true, false);
    } else if opcode == TRAP_EVENT_AVAIL {
        reveal(RunnerView::event_asked);
    } else {
        lemma_sound_trap_dispatched(a, o, opcode, quiet);
    }
}

proof fn lemma_sound_turn_ran(s: SliceView, t: SliceView, o: SliceOrder, pc: u32, flow: Flow, quiet: bool)
    requires
        turn_ran(s, t, o, pc, flow),
        sound_only(o),
        s.m.active is Some,
        undisturbed_sound(s.m, quiet),
        quiet || {
            let (e, ahead, over) = s.m.precharged(o);
            forall|u: RunnerView, n: u32, op: u16|
                #![trigger e.ran(u, e.batch_size(o, s.count, s.m.charging(o)), n, CpuExit::Aline(op))]
                !s.m.bad_pc(pc) && !over && e.ran(
                    u,
                    e.batch_size(o, s.count, s.m.charging(o)),
                    n,
                    CpuExit::Aline(op),
                ) ==> batch_counted(SliceView { m: u, ..s }, o, n, CpuExit::Aline(op), ahead).m.filter_shown(
                    o,
                    op,
                    s.m.disp.tick_count,
                    s.m.disp.tick_count,
                )
        },
    ensures
        unmoved(s.m, t.m),
{
    reveal(turn_ran);
    if !s.m.bad_pc(pc) {
        let (b, ahead, over) = s.m.precharged(o);
        assert(b == s.m && !over) by {
            reveal(RunnerView::precharged);
        }
        let max = b.batch_size(o, s.count, s.m.charging(o));
        let (u, n, exit) = choose|u: RunnerView, n: u32, exit: CpuExit|
            {
                &&& 1 <= max <= crate::policy::BATCH_CHUNK
                &&& #[trigger] b.ran(u, max, n, exit)
                &&& batch_ended(SliceView { m: u, ..s }, t, o, n, exit, ahead, flow)
            };
        reveal(batch_ended);
        let v = SliceView { m: u, ..s };
        let c = batch_counted(v, o, n, exit, ahead);
        assert(unmoved(u, c.m) && c.m.active == u.active) by {
            reveal(RunnerView::accounted);
        }
        if let CpuExit::Aline(opcode) = exit {
            reveal(trap_taken);
            let (x, k, capped, f) = choose|x: RunnerView, k: nat, capped: bool, f: Flow|
                {
                    &&& #[trigger] c.m.traps(x, o, opcode, c.room(o), k, capped, f)
                    &&& k <= 4 || k <= c.room(o)
                    &&& (t, flow) == behind_trap(c, x, k, capped, f)
                };
            lemma_sound_traps(c.m, x, o, opcode, c.room(o), k, capped, f, quiet);
        }
    }
}

/// A turn for sound work leaves the clock, and runs instructions only while a
/// callback runs: none of them is the foreground's.
pub proof fn lemma_sound_turn(s: SliceView, t: SliceView, o: SliceOrder, flow: Flow, quiet: bool)
    requires
        turned(s, t, o, flow),
        sound_only(o),
        undisturbed_sound(s.m, quiet),
        quiet || filters_shown(s, o, s.m.disp.tick_count, s.m.disp.tick_count),
    ensures
        t.m.disp.tick_count == s.m.disp.tick_count,
        undisturbed_sound(t.m, quiet),
        t.count != s.count ==> s.m.turn_opened(o, s.called).0.active is Some,
{
    reveal(turned);
    lemma_sound_turn_opened(s.m, o, s.called);
    let (a, first, called, pc) = s.m.turn_opened(o, s.called);
    if first is Run {
        let (b, stays) = choose|b: RunnerView, stays: bool|
            {
                let u = SliceView { m: b, called, ..s };
                &&& #[trigger] a.idle_taken(b, o, stays)
                &&& if stays {
                    t == u && flow is Leave
                } else {
                    turn_ran(u, t, o, pc, flow)
                }
            };
        let m = SliceView { m: b, called, ..s };
        if !quiet {
            let tick = b.disp.tick_count;
            let (e, ahead, over) = b.precharged(o);
            assert forall|u: RunnerView, n: u32, op: u16|
                #![trigger e.ran(u, e.batch_size(o, m.count, b.charging(o)), n, CpuExit::Aline(op))]
                !b.bad_pc(pc) && !over && e.ran(
                    u,
                    e.batch_size(o, m.count, b.charging(o)),
                    n,
                    CpuExit::Aline(op),
                ) implies batch_counted(SliceView { m: u, ..m }, o, n, CpuExit::Aline(op), ahead).m.filter_shown(
                o,
                op,
                tick,
                tick,
            ) by {
                let c = batch_counted(SliceView { m: u, ..m }, o, n, CpuExit::Aline(op), ahead);
                assert(a.idle_taken(b, o, false));
                assert(trap_reached(s, c, o, op));
            }
        }
        lemma_sound_turn_ran(m, t, o, pc, flow, quiet);
    }
}

proof fn lemma_sound_turns(path: Seq<SliceView>, s: SliceView, o: SliceOrder, i: int, quiet: bool)
    requires
        turns(path, s, o),
        sound_only(o),
        undisturbed_sound(s.m, quiet),
        quiet || forall|j: int|
            0 <= j < path.len() ==> filters_shown(#[trigger] path[j], o, s.m.disp.tick_count, s.m.disp.tick_count),
        0 <= i < path.len(),
    ensures
        undisturbed_sound(path[i].m, quiet),
        path[i].m.disp.tick_count == s.m.disp.tick_count,
    decreases i,
{
    if i > 0 {
        lemma_sound_turns(path, s, o, i - 1, quiet);
        assert(path[i - 1].goes_on(o));
        lemma_sound_turn(path[i - 1], path[i], o, Flow::Again, quiet);
    }
}

proof fn lemma_sound_slice_ends(path: Seq<SliceView>, s: RunnerView, o: SliceOrder, t: RunnerView, r: (usize, bool), quiet: bool)
    requires
        turns(path, s.slice(), o),
        RunnerView::slice_ends(path, o, t, r),
        sound_only(o),
        undisturbed_sound(s, quiet),
        quiet || forall|j: int|
            0 <= j < path.len() ==> filters_shown(#[trigger] path[j], o, s.disp.tick_count, s.disp.tick_count),
    ensures
        t.disp.tick_count == s.disp.tick_count,
{
    lemma_sound_turns(path, s.slice(), o, path.len() - 1, quiet);
    let last = path.last();
    if !last.goes_on(o) {
        lemma_left(last, o);
    } else {
        let (u, flow) = choose|u: SliceView, flow: Flow|
            {
                &&& #[trigger] turned(last, u, o, flow)
                &&& r.0 == u.count
                &&& match flow {
                    Flow::Leave => t == RunnerView::left(u, o) && r.1,
                    Flow::Halt => t == u.m && !r.1,
                    Flow::Yield => t == u.m.framed(o, u.called) && r.1,
                    _ => false,
                }
            };
        lemma_sound_turn(last, u, o, flow, quiet);
        if flow is Leave {
            lemma_left(u, o);
        } else if flow is Yield {
            lemma_framed(u.m, o, u.called);
        }
    }
}

/// Running the pending sound work, through the turns of `path`, leaves the clock where
/// it is, with a modal dialog too, and Ticks in guest memory unless the guest has set it
/// to another tick than the clock's. Wait loops may not be skipped by force, no
/// application may wait to be launched, and a filter procedure, which is shown the tick
/// in guest memory, may not be shown one that the guest has changed.
pub proof fn lemma_sound_work_leaves_clock(s: RunnerView, max_steps: usize, path: Seq<SliceView>, t: RunnerView, r: (usize, bool))
    requires
        undisturbed_sound(s, false),
        ({
            let o = s.order(max_steps, None, 0, true, true, true);
            &&& turns(path, s.slice(), o)
            &&& RunnerView::slice_ends(path, o, t, r)
            &&& forall|j: int|
                0 <= j < path.len() ==> filters_shown(#[trigger] path[j], o, s.disp.tick_count, s.disp.tick_count)
        }),
    ensures
        t.disp.tick_count == s.disp.tick_count,
        s.tick() == s.disp.tick_count && t.tick() == t.disp.tick_count ==> t.tick() == s.tick(),
{
    lemma_sound_slice_ends(path, s, s.order(max_steps, None, 0, true, true, true), t, r, false);
}

/// The same of any sound work that begins without a modal dialog.
pub proof fn lemma_sound_work_without_dialog_leaves_clock(s: RunnerView, max_steps: usize, t: RunnerView, r: (usize, bool))
    requires
        s.slice_may_end(s.order(max_steps, None, 0, true, true, true), t, r),
        undisturbed_sound(s, true),
    ensures
        t.disp.tick_count == s.disp.tick_count,
        s.tick() == s.disp.tick_count && t.tick() == t.disp.tick_count ==> t.tick() == s.tick(),
{
    let o = s.order(max_steps, None, 0, true, true, true);
    let path = choose|path: Seq<SliceView>| #[trigger]
        turns(path, s.slice(), o) && RunnerView::slice_ends(path, o, t, r);
    lemma_sound_slice_ends(path, s, o, t, r, true);
}

} // verus!

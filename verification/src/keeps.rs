use vstd::prelude::*;

use crate::audio::{lemma_channels_shown, lemma_queues_served};
use crate::cpu::CpuExit;
use crate::runner::RunnerView;
use crate::slice::{executed, Flow, SliceOrder};
use crate::ticks::lemma_ticked_keeps;
use crate::trap::DispView;
use crate::trap_turn::{idle_loop_trap, REFIRE_BATCH};
use crate::traps::{TRAP_EVENT_AVAIL, TRAP_MODAL_DIALOG, TRAP_PT_IN_RECT, TRAP_TICK_COUNT};

verus! {

/// No instruction was counted, the machine's speed stays, and so does whether it
/// is halted and what was recorded of that.
pub open spec fn kept_apart(s: RunnerView, t: RunnerView) -> bool {
    &&& t.total_instructions == s.total_instructions
    &&& t.halted == s.halted
    &&& t.halted_pc == s.halted_pc
    &&& t.halted_sp == s.halted_sp
    &&& t.halted_d0 == s.halted_d0
    &&& t.instructions_per_tick == s.instructions_per_tick
}

/// The samples that nobody has fetched yet are the same.
pub open spec fn hushed(s: RunnerView, t: RunnerView) -> bool {
    &&& t.audio_buffer == s.audio_buffer
    &&& t.host_audio == s.host_audio
}

/// The same, and no sound was mixed.
pub open spec fn kept(s: RunnerView, t: RunnerView) -> bool {
    kept_apart(s, t) && hushed(s, t)
}

impl RunnerView {
    /// Where the machine has halted is recorded, with its stack pointer and D0.
    pub open spec fn recorded(self) -> bool {
        self.halted_pc is Some && self.halted_sp is Some && self.halted_d0 is Some
    }
}

/// The same, and no draw procedure of a modeless dialog was queued or taken.
pub open spec fn kept_queue(s: RunnerView, t: RunnerView) -> bool {
    kept(s, t) && t.disp.modeless_dialog_draw_proc_queue == s.disp.modeless_dialog_draw_proc_queue
}

proof fn lemma_ticked(s: RunnerView)
    ensures
        kept_queue(s, s.ticked()),
{
    lemma_ticked_keeps(s);
}

proof fn lemma_budget_ticks(s: RunnerView, cap: Option<u32>)
    requires
        1 <= s.instructions_per_tick <= 0x7fff_ffff,
    ensures
        kept_queue(s, s.budget_ticks(cap).0),
    decreases (if s.tick_budget <= 0 { 1 - s.tick_budget } else { 0 }),
{
    lemma_ticked_keeps(s);
    if s.tick_budget > 0 || s.frozen_ticks is Some || s.reached(cap) {
    } else {
        let t = RunnerView { tick_budget: (s.tick_budget + s.instructions_per_tick) as i32, ..s.ticked() };
        if t.active is None && !t.reached(cap) {
            lemma_budget_ticks(t, cap);
        }
    }
}

/// Charging counts no instruction.
pub proof fn lemma_charged(s: RunnerView, units: i32, cap: Option<u32>)
    requires
        1 <= s.instructions_per_tick <= 0x7fff_ffff,
    ensures
        kept_queue(s, s.charged(units, cap).0),
{
    if units > 0 && s.active is None {
        lemma_budget_ticks(RunnerView { tick_budget: crate::ticks::lowered(s.tick_budget, units), ..s }, cap);
    }
}

proof fn lemma_slept(s: RunnerView, cap: Option<u32>)
    ensures
        kept_queue(s, s.slept(cap)),
    decreases s.disp.pending_wait_sleep_ticks,
{
    if s.disp.pending_wait_sleep_ticks == 0 || s.reached(cap) {
    } else {
        let spent = RunnerView {
            disp: DispView { pending_wait_sleep_ticks: (s.disp.pending_wait_sleep_ticks - 1) as u32, ..s.disp },
            ..s
        };
        lemma_ticked_keeps(spent);
        let t = spent.ticked().refilled();
        if t.active is None {
            lemma_slept(t, cap);
        }
    }
}

proof fn lemma_ticked_times(s: RunnerView, n: nat)
    ensures
        kept_queue(s, s.ticked_times(n)),
    decreases n,
{
    if n > 0 {
        lemma_ticked_keeps(s);
        let t = s.ticked().refilled();
        if t.active is None {
            lemma_ticked_times(t, (n - 1) as nat);
        }
    }
}

proof fn lemma_delayed(s: RunnerView, cap: Option<u32>)
    ensures
        kept_queue(s, s.delayed(cap).0),
    decreases s.disp.pending_delay_ticks,
{
    if s.disp.pending_delay_ticks == 0 || s.reached(cap) {
    } else {
        let spent = RunnerView {
            disp: DispView { pending_delay_ticks: (s.disp.pending_delay_ticks - 1) as u32, ..s.disp },
            ..s
        };
        lemma_ticked_keeps(spent);
        let t = spent.ticked().refilled();
        if t.active is None {
            lemma_delayed(t, cap);
        }
    }
}

proof fn lemma_event_delivered(s: RunnerView)
    ensures
        kept_queue(s, s.event_delivered().0),
{
    reveal(DispView::delivered);
}

proof fn lemma_sleep_served(s: RunnerView, cap: Option<u32>)
    ensures
        kept_queue(s, s.sleep_served(cap).0),
{
    lemma_event_delivered(s);
    let t = s.event_delivered().0;
    lemma_slept(t, cap);
    lemma_slept(t, None);
    let ended = RunnerView { disp: t.disp.awake().unparked(), ..t };
    let n = match t.wait_sleep_cap_in_headless {
        Some(limit) => if !t.disp.shows_own_dialog() && limit < t.disp.pending_wait_sleep_ticks {
            limit
        } else {
            t.disp.pending_wait_sleep_ticks
        },
        None => 0,
    };
    lemma_ticked_times(ended, n as nat);
}

proof fn lemma_delay_served(s: RunnerView, cap: Option<u32>)
    ensures
        kept_queue(s, s.delay_served(cap).0),
{
    lemma_delayed(s, cap);
}

/// How much sound work waits.
pub open spec fn sound_queue(s: RunnerView) -> nat {
    s.disp.sound.pending_sound_callbacks.len() + s.disp.sound.pending_callbacks.len()
}

proof fn lemma_sound_called(s: RunnerView)
    ensures
        kept_queue(s, s.sound_called().0),
        s.active is None && sound_queue(s) > 0 ==> sound_queue(s.sound_called().0) < sound_queue(s),
        s.active is None && !s.sound_called().1 ==> s.sound_called().0.active is None,
{
    reveal(RunnerView::sound_fired);
    reveal(RunnerView::doubleback_fired);
    reveal(RunnerView::interrupted);
}

/// Interrupt work counts no instruction. It asks for another turn only when it
/// has called something, or has dropped sound work that cannot be called.
pub proof fn lemma_work_called(s: RunnerView, o: SliceOrder, called: bool)
    ensures
        kept_queue(s, s.work_called(o, called).0),
        s.work_called(o, called).1 is Again ==> s.active is None && (s.work_called(o, called).0.active is Some
            || sound_queue(s.work_called(o, called).0) < sound_queue(s)),
        s.work_called(o, called).1 is Run || s.work_called(o, called).1 is Again || s.work_called(o, called).1 is Leave,
{
    reveal(RunnerView::work_called);
    let a = if o.sound_work_only {
        s
    } else {
        s.file_completed().0
    };
    assert(kept_queue(s, a) && (s.active is Some ==> a.active is Some)) by {
        reveal(RunnerView::file_completed);
        reveal(RunnerView::interrupted);
    }
    lemma_sound_called(a);
    let b = if a.active is None && !called {
        a.sound_called().0
    } else {
        a
    };
    assert(kept_queue(b, b.timer_fired(b.timer_now()))) by {
        reveal(RunnerView::timer_fired);
        reveal(RunnerView::interrupted);
    }
    if o.sound_work_only && s.active is None {
        assert(a == s);
    }
}

/// Sleeping and delaying count no instruction; only a stopped processor halts
/// the machine.
pub proof fn lemma_waits_served(s: RunnerView, o: SliceOrder)
    ensures
        ({
            let (t, flow) = s.waits_served(o);
            &&& flow is Run || flow is Leave || flow is Halt
            &&& flow is Halt ==> t.halted && t.recorded() && hushed(s, t) && t.total_instructions
                == s.total_instructions && t.instructions_per_tick == s.instructions_per_tick
            &&& !(flow is Halt) ==> kept_queue(s, t)
        }),
{
    reveal(RunnerView::waits_served);
    lemma_sleep_served(s, o.tick_cap);
    let a = if o.sound_work_only {
        s
    } else {
        s.sleep_served(o.tick_cap).0
    };
    lemma_delay_served(a, o.tick_cap);
}

proof fn lemma_draw_called(s: RunnerView, addr: u32, item: i16, dialog: u32, modeless: bool)
    ensures
        kept_queue(s, s.draw_called(addr, item, dialog, modeless).0),
{
    reveal(RunnerView::draw_called);
    reveal(RunnerView::interrupted);
}

proof fn lemma_modeless_drawn(s: RunnerView)
    ensures
        kept(s, s.modeless_drawn().0),
        s.modeless_drawn().0.disp.modeless_dialog_draw_proc_queue.len() <= s.disp.modeless_dialog_draw_proc_queue.len(),
        s.modeless_drawn().1 ==> s.modeless_drawn().0.disp.modeless_dialog_draw_proc_queue.len()
            < s.disp.modeless_dialog_draw_proc_queue.len(),
    decreases s.disp.modeless_dialog_draw_proc_queue.len(),
{
    reveal(RunnerView::modeless_drawn);
    let queue = s.disp.modeless_dialog_draw_proc_queue;
    if s.active is Some || queue.len() == 0 {
    } else {
        let taken = RunnerView {
            disp: DispView {
                modeless_dialog_draw_proc_queue: queue.subrange(1, queue.len() as int),
                ..s.disp
            },
            ..s
        };
        lemma_draw_called(taken, queue[0].1, queue[0].2, queue[0].0, true);
        lemma_modeless_drawn(taken);
    }
}

/// Leaving a callback counts no instruction; it asks for another turn only when
/// it has called a queued draw procedure.
pub proof fn lemma_callback_left(s: RunnerView, o: SliceOrder)
    ensures
        ({
            let (t, flow) = s.callback_left(o);
            &&& flow is Run || flow is Leave || flow is Again
            &&& kept(s, t)
            &&& flow is Again ==> t.disp.modeless_dialog_draw_proc_queue.len() < s.disp.modeless_dialog_draw_proc_queue.len()
        }),
{
    reveal(RunnerView::callback_left);
    lemma_modeless_drawn(s.callback_ended());
}

proof fn lemma_ticked_until(s: RunnerView, n: nat, cap: Option<u32>)
    ensures
        kept_queue(s, s.ticked_until(n, cap).0),
    decreases n,
{
    if n > 0 {
        lemma_ticked_keeps(s);
        lemma_ticked_until(s.ticked(), (n - 1) as nat, cap);
    }
}

/// Taking up a parked loop counts no instruction.
pub proof fn lemma_resumes_idle(s: RunnerView, t: RunnerView, cap: Option<u32>, r: bool)
    requires
        s.may_resume_idle(t, cap, r),
    ensures
        kept(s, t),
{
    if let Some(sleep) = s.idle_cycle_sleep {
        let taken = RunnerView {
            bus: crate::memory::BusView { probe: None, ..s.bus },
            idle_cycle_sleep: None,
            ..s
        };
        lemma_ticked_until(
            taken,
            sleep.wake_tick.wrapping_sub(taken.disp.tick_count) as nat,
            cap,
        );
    }
}

proof fn lemma_passes_null_event(s: RunnerView, t: RunnerView, trap_pc: u32, cap: Option<u32>, r: bool)
    requires
        s.passes_null_event(t, trap_pc, cap, r),
    ensures
        kept(s, t),
{
    if let Some(c) = cap {
        if !s.watches_elsewhere(trap_pc) {
            let wake = s.disp.tick_count.wrapping_add(1);
            let seen = RunnerView {
                bus: crate::memory::BusView { probe: None, ..s.bus },
                idle_cycle_probe: None,
                idle_cycle_last_seen: Some((trap_pc, s.disp.tick_count)),
                ..s
            };
            lemma_ticked_until(seen, wake.wrapping_sub(seen.disp.tick_count) as nat, cap);
        }
    }
}

/// A turn's run of instructions counts what it executed.
pub proof fn lemma_accounted(s: RunnerView, o: SliceOrder, n: u32, exit: CpuExit, ahead: bool)
    requires
        1 <= s.instructions_per_tick <= 0x7fff_ffff,
        n < u32::MAX,
    ensures
        ({
            let t = s.accounted(o, n, exit, ahead).0;
            &&& t.total_instructions == s.total_instructions.wrapping_add(executed(n, exit) as u64)
            &&& t.halted == s.halted
            &&& t.instructions_per_tick == s.instructions_per_tick
            &&& hushed(s, t)
        }),
{
    reveal(RunnerView::accounted);
    let k = executed(n, exit);
    let c = RunnerView { total_instructions: s.total_instructions.wrapping_add(k as u64), ..s };
    lemma_charged(c, k as i32, o.tick_cap);
    lemma_charged(c, (k - 1) as i32, o.tick_cap);
}

/// Charging ahead counts no instruction.
pub proof fn lemma_precharged(s: RunnerView, o: SliceOrder)
    requires
        1 <= s.instructions_per_tick <= 0x7fff_ffff,
    ensures
        kept(s, s.precharged(o).0),
{
    reveal(RunnerView::precharged);
    lemma_charged(s, 1, o.tick_cap);
}

proof fn lemma_switched(s: RunnerView, path: Seq<char>)
    ensures
        s.switched(path) matches Ok(t) ==> t.total_instructions == s.total_instructions && !t.halted
            && t.instructions_per_tick == s.instructions_per_tick && hushed(s, t),
{
    reveal(RunnerView::blank);
    reveal(RunnerView::loaded);
    reveal(RunnerView::begun);
    reveal(RunnerView::initialized);
}

/// Serving a launch counts no instruction; a launch that fails halts the
/// machine, and one that succeeds starts one that is not halted.
pub proof fn lemma_launch_served(s: RunnerView, yielded: bool, exited: bool)
    ensures
        ({
            let (t, served) = s.launch_served(yielded, exited);
            &&& t.total_instructions == s.total_instructions
            &&& t.instructions_per_tick == s.instructions_per_tick
            &&& hushed(s, t)
            &&& served && t.halted ==> t.recorded()
            &&& !served ==> t == s
        }),
{
    if let Some(path) = s.disp.launch_due(yielded, exited) {
        lemma_switched(RunnerView { disp: DispView { pending_launch: None, ..s.disp }, ..s }, path);
    }
}

proof fn lemma_refired(s: RunnerView, cap: Option<u32>, room: int, left: nat)
    requires
        1 <= s.instructions_per_tick <= 0x7fff_ffff,
        left <= REFIRE_BATCH,
    ensures
        ({
            let (t, k, capped) = s.refired(cap, room, left);
            &&& k <= left
            &&& t.total_instructions == s.total_instructions.wrapping_add(k as u64)
            &&& t.halted == s.halted
            &&& t.instructions_per_tick == s.instructions_per_tick
            &&& hushed(s, t)
        }),
    decreases left,
{
    if left > 0 && room > 0 {
        lemma_charged(s, 1, cap);
        let (c, capped) = s.charged(1, cap);
        if !capped {
            let t = RunnerView {
                total_instructions: c.total_instructions.wrapping_add(1),
                disp: c.disp.counted_inline(TRAP_MODAL_DIALOG),
                ..c
            };
            lemma_refired(t, cap, room - 1, (left - 1) as nat);
        }
    }
}

/// What holds behind a part of a turn that counted `k` instructions: they are in
/// the total, and the machine is halted exactly when the slice is over for that
/// reason.
pub open spec fn went_on(s: RunnerView, t: RunnerView, k: nat, flow: Flow) -> bool {
    &&& t.total_instructions == s.total_instructions.wrapping_add(k as u64)
    &&& t.instructions_per_tick == s.instructions_per_tick
    &&& t.halted == (flow is Halt)
    &&& flow is Halt ==> t.recorded()
    &&& hushed(s, t)
}

proof fn lemma_tick_count_read(s: RunnerView, o: SliceOrder)
    requires
        !s.halted,
    ensures
        ({
            let (t, k, flow) = s.tick_count_read(o);
            went_on(s, t, k as nat, flow)
        }),
{
    reveal(RunnerView::tick_count_read);
    let a = RunnerView {
        bus: s.bus.long(s.cpu.sp(), s.disp.tick_count),
        disp: s.disp.trapped_inline(TRAP_TICK_COUNT),
        ..s
    };
    let pc = s.cpu.ppc.wrapping_add(2);
    if let Some(wait) = crate::spin::spin_wait(a.cpu, a.bus, pc) {
        lemma_ticked_until(a, wait.until.wrapping_sub(a.disp.tick_count) as nat, o.tick_cap);
    }
}

proof fn lemma_dialog_refired(s: RunnerView, o: SliceOrder, room: int)
    requires
        !s.halted,
        1 <= s.instructions_per_tick <= 0x7fff_ffff,
    ensures
        went_on(s, s.dialog_refired(o, room).0, s.dialog_refired(o, room).1, Flow::Again),
{
    reveal(RunnerView::dialog_refired);
    let a = RunnerView { disp: s.disp.trapped_inline(TRAP_MODAL_DIALOG), ..s };
    lemma_refired(a, o.tick_cap, room, REFIRE_BATCH as nat);
}

proof fn lemma_launch_flow(s: RunnerView, yielded: bool, exited: bool, otherwise: Flow)
    requires
        !s.halted,
        !(otherwise is Halt),
    ensures
        ({
            let (t, served) = s.launch_served(yielded, exited);
            went_on(s, t, 0, t.launch_flow(served, otherwise))
        }),
{
    lemma_launch_served(s, yielded, exited);
}

proof fn lemma_rect_asked(s: RunnerView)
    requires
        !s.halted,
    ensures
        went_on(s, s.rect_asked().0, 0, s.rect_asked().1),
{
    reveal(RunnerView::rect_asked);
    let a = RunnerView {
        bus: crate::traps::pt_in_rect(s.bus, s.cpu.sp()),
        cpu: crate::traps::popped(s.cpu, 8),
        disp: s.disp.rect_trapped(s.cpu.ppc),
        ..s
    };
    lemma_launch_flow(a, true, false, Flow::Again);
}

proof fn lemma_trap_charged(s: RunnerView, opcode: u16, cap: Option<u32>)
    requires
        1 <= s.instructions_per_tick <= 0x7fff_ffff,
    ensures
        kept(s, s.trap_charged(opcode, cap).0),
{
    reveal(RunnerView::trap_charged);
    let a = s.noted(opcode);
    let b = RunnerView { disp: DispView { hle_tick_cost: 0, ..a.disp }, ..a };
    lemma_charged(b, crate::trap_turn::saturated(crate::policy::trap_cost(opcode), a.disp.hle_tick_cost), cap);
}

proof fn lemma_drawn(s: RunnerView)
    ensures
        kept(s, s.drawn().0),
{
    lemma_modeless_drawn(s);
    reveal(RunnerView::modal_drawn);
    if let Some(d) = s.disp.dialog {
        let queue = d.draw_proc_queue;
        let rest = crate::dialog::DialogView { draw_proc_queue: queue.subrange(1, queue.len() as int), ..d };
        lemma_draw_called(
            RunnerView { disp: DispView { dialog: Some(rest), ..s.disp }, ..s },
            queue[0].0,
            queue[0].1,
            d.dialog_ptr,
            false,
        );
    }
}

proof fn lemma_tracking_called(s: RunnerView, opcode: u16)
    ensures
        kept(s, s.tracking_called(opcode).0),
{
    reveal(RunnerView::tracking_called);
    reveal(RunnerView::interrupted);
    lemma_drawn(s.hook_called(opcode).0);
}

proof fn lemma_tracking_on(s: RunnerView, o: SliceOrder, opcode: u16, pc: u32)
    requires
        !s.halted,
    ensures
        ({
            let (t, flow) = s.tracking_on(o, opcode, pc);
            went_on(s, t, 0, flow)
        }),
{
    reveal(RunnerView::tracking_on);
    let a = s.tracking_held(o, opcode, pc);
    assert(kept(s, a)) by {
        reveal(RunnerView::tracking_held);
    }
    lemma_tracking_called(a, opcode);
    lemma_ticked(a.tracking_called(opcode).0);
}

proof fn lemma_trap_left(s: RunnerView, o: SliceOrder, opcode: u16, tracks: bool)
    requires
        !s.halted,
    ensures
        ({
            let (t, flow) = s.trap_left(o, opcode, tracks);
            went_on(s, t, 0, flow)
        }),
{
    reveal(RunnerView::trap_left);
    let a = if s.frozen_ticks is Some {
        s.unfrozen_to(o.host_tick)
    } else {
        s
    };
    lemma_modeless_drawn(a);
    let b = if tracks {
        a
    } else {
        a.modeless_drawn().0
    };
    lemma_delay_served(b, o.tick_cap);
    lemma_launch_flow(b.delay_served(o.tick_cap).0, crate::policy::event_yield(opcode), false, Flow::Run);
}

proof fn lemma_trap_done(s: RunnerView, o: SliceOrder, opcode: u16, pc: u32)
    requires
        !s.halted,
        1 <= s.instructions_per_tick <= 0x7fff_ffff,
    ensures
        ({
            let (t, capped, flow) = s.trap_done(o, opcode, pc);
            went_on(s, t, 0, flow)
        }),
{
    reveal(RunnerView::trap_done);
    lemma_trap_charged(s, opcode, o.tick_cap);
    let a = s.trap_charged(opcode, o.tick_cap).0;
    lemma_tracking_on(a, o, opcode, pc);
    lemma_trap_left(a, o, opcode, false);
    let (b, flow) = a.tracking_on(o, opcode, pc);
    if flow is Run {
        lemma_trap_left(b, o, opcode, true);
    }
}

proof fn lemma_trap_dispatched(s: RunnerView, o: SliceOrder, opcode: u16)
    requires
        !s.halted,
        1 <= s.instructions_per_tick <= 0x7fff_ffff,
    ensures
        ({
            let (t, capped, flow, null) = s.trap_dispatched(o, opcode);
            went_on(s, t, 0, flow)
        }),
{
    reveal(RunnerView::trap_dispatched);
    reveal(RunnerView::toolbox_called);
    let a = s.toolbox_called(o, opcode).0;
    assert(kept(s, a) && a.instructions_per_tick == s.instructions_per_tick);
    lemma_trap_done(a, o, opcode, s.cpu.ppc);
    reveal(RunnerView::trap_ended);
    lemma_launch_flow(a, false, true, Flow::Run);
    lemma_launch_served(a, false, true);
}

proof fn lemma_may_stay_idle(
    s: RunnerView,
    t: RunnerView,
    idle: bool,
    pc: u32,
    cap: Option<u32>,
    otherwise: Flow,
    flow: Flow,
)
    requires
        s.may_stay_idle(t, idle, pc, cap, otherwise, flow),
        s.halted == (otherwise is Halt),
        s.halted ==> s.recorded(),
        idle ==> !(otherwise is Halt),
    ensures
        went_on(s, t, 0, flow),
{
    if idle {
        if flow is Leave && s.passes_null_event(t, pc, cap, true) {
            lemma_passes_null_event(s, t, pc, cap, true);
        } else {
            lemma_passes_null_event(s, t, pc, cap, false);
        }
    }
}

/// A trap counts the instructions that it skipped or repeated, and leaves the
/// machine halted exactly when it says so.
pub proof fn lemma_traps(
    s: RunnerView,
    t: RunnerView,
    o: SliceOrder,
    opcode: u16,
    room: int,
    k: nat,
    capped: bool,
    flow: Flow,
)
    requires
        s.traps(t, o, opcode, room, k, capped, flow),
        !s.halted,
        1 <= s.instructions_per_tick <= 0x7fff_ffff,
    ensures
        went_on(s, t, k, flow),
{
    reveal(RunnerView::traps);
    let a = if s.idle_cycle_probe is Some && !idle_loop_trap(opcode) {
        s.unwatched()
    } else {
        s
    };
    if opcode == TRAP_TICK_COUNT {
        lemma_tick_count_read(a, o);
    } else if opcode == TRAP_MODAL_DIALOG && a.dialog_at_rest(o) {
        lemma_dialog_refired(a, o, room);
    } else if opcode == TRAP_PT_IN_RECT {
        lemma_rect_asked(a);
    } else if opcode == TRAP_EVENT_AVAIL {
        assert(kept(a, a.event_asked())) by {
            reveal(RunnerView::event_asked);
        }
        lemma_may_stay_idle(
            a.event_asked(),
            t,
            a.event_asked().null_event(opcode) && a.skips_waits(o),
            a.cpu.ppc,
            o.tick_cap,
            Flow::Again,
            flow,
        );
    } else {
        lemma_trap_dispatched(a, o, opcode);
        let (u, hit, f, null) = a.trap_dispatched(o, opcode);
        lemma_may_stay_idle(u, t, f is Run && null && u.skips_waits(o), a.cpu.ppc, o.tick_cap, f, flow);
    }
}

proof fn lemma_refired_bound(s: RunnerView, cap: Option<u32>, room: int, left: nat)
    ensures
        s.refired(cap, room, left).1 <= left,
        room >= 0 ==> s.refired(cap, room, left).1 <= room,
    decreases left,
{
    if left > 0 && room > 0 {
        let (c, capped) = s.charged(1, cap);
        let t = RunnerView {
            total_instructions: c.total_instructions.wrapping_add(1),
            disp: c.disp.counted_inline(TRAP_MODAL_DIALOG),
            ..c
        };
        lemma_refired_bound(t, cap, room - 1, (left - 1) as nat);
    }
}

/// A trap never counts more than a few dozen instructions beside itself.
pub proof fn lemma_traps_bound(
    s: RunnerView,
    t: RunnerView,
    o: SliceOrder,
    opcode: u16,
    room: int,
    k: nat,
    capped: bool,
    flow: Flow,
)
    requires
        s.traps(t, o, opcode, room, k, capped, flow),
        k <= 4 || k <= room,
    ensures
        k <= REFIRE_BATCH,
{
    reveal(RunnerView::traps);
    let a = if s.idle_cycle_probe is Some && !idle_loop_trap(opcode) {
        s.unwatched()
    } else {
        s
    };
    if opcode == TRAP_TICK_COUNT {
        reveal(RunnerView::tick_count_read);
        let b = RunnerView {
            bus: a.bus.long(a.cpu.sp(), a.disp.tick_count),
            disp: a.disp.trapped_inline(TRAP_TICK_COUNT),
            ..a
        };
        crate::spin::lemma_spin_wait_bounds(b.cpu, b.bus, a.cpu.ppc.wrapping_add(2));
    } else if opcode == TRAP_MODAL_DIALOG && a.dialog_at_rest(o) {
        reveal(RunnerView::dialog_refired);
        let b = RunnerView { disp: a.disp.trapped_inline(TRAP_MODAL_DIALOG), ..a };
        lemma_refired_bound(b, o.tick_cap, room, REFIRE_BATCH as nat);
    }
}

proof fn lemma_mixed(s: RunnerView, n: nat)
    ensures
        kept_apart(s, s.mixed(n)),
    decreases n,
{
    if n > 0 {
        lemma_queues_served(s.buffers_loaded());
        let a = s.buffers_loaded().queues_served();
        let k = a.disp.sound.next_chunk(n);
        let out = a.disp.sound.mixing(k);
        let b = a.with_sound(a.disp.sound.after_mixing(k));
        let c = b.with_sound(b.disp.sound.released());
        if out.len() == 0 || k == 0 || k > n {
        } else {
            lemma_mixed(c.sounded(out), (n - k) as nat);
        }
    }
}

/// The sound work of a host frame counts no instruction.
pub proof fn lemma_audio_finished(s: RunnerView, n: nat, called: bool)
    ensures
        kept_apart(s, s.audio_finished(n, called)),
        n == 0 ==> hushed(s, s.audio_finished(n, called)),
{
    let a = s.buffers_loaded();
    lemma_queues_served(a);
    lemma_mixed(a.queues_served(), n);
    lemma_channels_shown(a.queues_served().mixed(n));
    lemma_sound_called(a.queues_served().mixed(n).channels_shown());
}

} // verus!

use vstd::prelude::*;

use crate::interrupts::level_one_open;
use crate::events::{PendingWaitNextEventReturn, QueuedEvent};
use crate::memory::{apart, group_memory_bytes, group_memory_lengths, group_memory_reads, long_at, word_at, BusView};
use crate::memory_laws::{lemma_signed_back, signed};
use crate::runner::{ActiveInterruptCallbackSource, RunnerView};
use crate::stubs::{cursor_stub, timer_stub, vbl_stub};
use crate::ticks::{lemma_ticked_keeps, with_clock};
use crate::timers::{earliest_timer, lemma_earliest_timer_in_range, vbl_countdown, SUBTICKS_PER_TICK};
use crate::trap::DispView;

verus! {

broadcast use group_memory_lengths;

/// A record or a stub lies behind low memory and does not run over the end of the address
/// space.
pub open spec fn behind_low_memory(a: u32) -> bool {
    0x1000 <= a <= 0xFFFF_FF00
}

/// Interrupt work has no business in low memory: the stack, the task records and the stubs
/// lie behind it, and there is room for the stubs that are still missing.
pub open spec fn keeps_to_itself(s: RunnerView) -> bool {
    &&& s.cpu.dar.len() == 16
    &&& s.bus.mem.len() <= 0x1_0000_0000
    &&& 0x1000 <= s.bus.mem.len()
    &&& 0x1004 <= s.cpu.dar[15] <= 0xFFFF_FF00
    &&& forall|i: int| 0 <= i < s.disp.vbl_tasks.len() ==> behind_low_memory((#[trigger] s.disp.vbl_tasks[i]).task_ptr)
    &&& forall|i: int| 0 <= i < s.disp.timer_tasks.len() ==> behind_low_memory((#[trigger] s.disp.timer_tasks[i]).task_ptr)
    &&& if s.vbl_trampoline == 0 { 0x2000 <= s.bus.stubs <= 0x7F00 } else { behind_low_memory(s.vbl_trampoline) }
    &&& if s.timer_trampoline == 0 {
        behind_low_memory(s.bus.heap) && s.bus.has_room(24)
    } else {
        behind_low_memory(s.timer_trampoline)
    }
    &&& if s.cursor_task_trampoline == 0 {
        behind_low_memory(s.bus.heap) && s.bus.has_room(16)
    } else {
        behind_low_memory(s.cursor_task_trampoline)
    }
}

/// Memory below $1000 is the same in both.
pub open spec fn same_low_memory(b: BusView, c: BusView) -> bool {
    &&& b.mem.len() == c.mem.len()
    &&& forall|a: u32| a < 0x1000 ==> #[trigger] b.get_byte(a) == c.get_byte(a)
}

/// What low memory holds is the same where its bytes are.
pub proof fn lemma_same_low_long(b: BusView, c: BusView, a: u32)
    requires
        same_low_memory(b, c),
        a + 4 <= 0x1000,
    ensures
        b.get_long(a) == c.get_long(a),
{
    reveal(long_at);
    reveal(word_at);
    assert(b.get_byte(a) == c.get_byte(a));
    assert(b.get_byte((a + 1) as u32) == c.get_byte((a + 1) as u32));
    assert(b.get_byte((a + 2) as u32) == c.get_byte((a + 2) as u32));
    assert(b.get_byte((a + 3) as u32) == c.get_byte((a + 3) as u32));
}

proof fn lemma_interrupted_low(s: RunnerView, source: ActiveInterruptCallbackSource, stub: u32)
    requires
        s.cpu.dar.len() == 16,
        0x1004 <= s.cpu.dar[15] <= 0xFFFF_FF00,
    ensures
        same_low_memory(s.bus, s.interrupted(source, stub).bus),
{
    broadcast use group_memory_bytes;

    reveal(RunnerView::interrupted);
}

proof fn lemma_cursor_low(s: RunnerView)
    requires
        keeps_to_itself(s),
    ensures
        same_low_memory(s.bus, s.cursor_fired().bus),
        s.cursor_fired().active is None ==> s.cursor_fired() == s,
{
    broadcast use group_memory_bytes;

    reveal(RunnerView::cursor_fired);
    if let Some(addr) = s.cursor_task() {
        reveal(cursor_stub);
        let (bus, t) = cursor_stub(s.bus, s.cursor_task_trampoline, addr);
        assert(same_low_memory(s.bus, bus));
        lemma_interrupted_low(
            RunnerView { bus, cursor_task_trampoline: t, ..s },
            ActiveInterruptCallbackSource::CursorTask,
            t,
        );
        reveal(RunnerView::interrupted);
    }
}

proof fn lemma_countdown_low(b: BusView, tasks: Seq<crate::events::VblTask>, i: int)
    requires
        0 <= i,
        forall|k: int| 0 <= k < tasks.len() ==> behind_low_memory((#[trigger] tasks[k]).task_ptr),
    ensures
        same_low_memory(b, vbl_countdown(b, tasks, i).0),
        vbl_countdown(b, tasks, i).0 == (BusView { mem: vbl_countdown(b, tasks, i).0.mem, ..b }),
    decreases tasks.len() - i,
{
    broadcast use group_memory_bytes;

    if i < tasks.len() {
        let at = tasks[i].task_ptr.wrapping_add(10);
        let count = b.get_word(at) as i16;
        if count <= 0 {
            lemma_countdown_low(b, tasks, i + 1);
        } else {
            let c = b.word(at, (count - 1) as u16);
            lemma_countdown_low(c, tasks, i + 1);
            let all = vbl_countdown(b, tasks, i).0;
            assert(same_low_memory(b, c));
            if vbl_countdown(b, tasks, i) == vbl_countdown(c, tasks, i + 1) {
                assert forall|a: u32| a < 0x1000 implies #[trigger] b.get_byte(a) == all.get_byte(a) by {
                    assert(b.get_byte(a) == c.get_byte(a));
                    assert(c.get_byte(a) == all.get_byte(a));
                }
            }
        }
    }
}

proof fn lemma_vbl_low(s: RunnerView)
    requires
        keeps_to_itself(s),
    ensures
        same_low_memory(s.bus, s.vbl_fired().bus),
        s.vbl_fired().active is None ==> s.vbl_fired() == (RunnerView {
            bus: BusView { mem: s.vbl_fired().bus.mem, ..s.bus },
            ..s
        }),
{
    broadcast use group_memory_bytes;

    reveal(RunnerView::vbl_fired);
    if s.active is None && level_one_open(s.cpu.sr) {
        lemma_countdown_low(s.bus, s.disp.vbl_tasks, 0);
        let (b, due) = vbl_countdown(s.bus, s.disp.vbl_tasks, 0);
        if let Some(task) = due {
            let addr = b.get_long(task.wrapping_add(6));
            if addr != 0 {
                reveal(vbl_stub);
                let (bus, t) = vbl_stub(b, s.vbl_trampoline, task, addr);
                assert forall|a: u32| a < 0x1000 implies #[trigger] s.bus.get_byte(a) == bus.get_byte(a) by {
                    assert(s.bus.get_byte(a) == b.get_byte(a));
                }
                let m = RunnerView { bus, vbl_trampoline: t, ..s };
                lemma_interrupted_low(m, ActiveInterruptCallbackSource::Vbl, t);
                let e = m.interrupted(ActiveInterruptCallbackSource::Vbl, t).bus;
                assert forall|a: u32| a < 0x1000 implies #[trigger] s.bus.get_byte(a) == e.get_byte(a) by {
                    assert(s.bus.get_byte(a) == bus.get_byte(a));
                    assert(bus.get_byte(a) == e.get_byte(a));
                }
                assert(s.vbl_fired().bus == e) by {
                    reveal(RunnerView::interrupted);
                }
                reveal(RunnerView::interrupted);
            }
        }
    }
}

proof fn lemma_timer_low(s: RunnerView, now: u64)
    requires
        keeps_to_itself(s),
    ensures
        same_low_memory(s.bus, s.timer_fired(now).bus),
{
    broadcast use group_memory_bytes;

    reveal(RunnerView::timer_fired);
    let tasks = s.disp.timer_tasks;
    lemma_earliest_timer_in_range(tasks, now, tasks.len());
    if s.active is None && earliest_timer(tasks, now, tasks.len()) is Some {
        let k = earliest_timer(tasks, now, tasks.len())->0;
        let task = tasks[k];
        assert(behind_low_memory(tasks[k].task_ptr));
        let at = task.task_ptr.wrapping_add(4);
        let b = s.bus.word(at, s.bus.get_word(at) & 0x7FFF);
        assert(same_low_memory(s.bus, b));
        if task.tm_addr != 0 {
            reveal(timer_stub);
            let (bus, t) = timer_stub(b, s.timer_trampoline, task.task_ptr, task.tm_addr);
            assert forall|a: u32| a < 0x1000 implies #[trigger] s.bus.get_byte(a) == bus.get_byte(a) by {
                assert(s.bus.get_byte(a) == b.get_byte(a));
            }
            let e = s.timer_fired(now).bus;
            reveal(RunnerView::interrupted);
            assert(e == bus.long(s.cpu.sp().wrapping_sub(4), s.cpu.pc));
            assert forall|a: u32| a < 0x1000 implies #[trigger] s.bus.get_byte(a) == e.get_byte(a) by {
                assert(s.bus.get_byte(a) == bus.get_byte(a));
            }
        }
    }
}

/// Interrupt work leaves low memory as the clock left it.
pub proof fn lemma_interrupt_work_spares_low_memory(s: RunnerView)
    requires
        keeps_to_itself(s),
    ensures
        same_low_memory(s.clocked().bus, s.ticked().bus),
        s.ticked().active is None ==> keeps_to_itself(s.ticked()),
{
    reveal(RunnerView::ticked);
    reveal(with_clock);
    let a = s.clocked();
    assert(keeps_to_itself(a));
    let b = a.cursor_fired();
    lemma_cursor_low(a);
    let now = (s.tick().wrapping_add(1) * SUBTICKS_PER_TICK) as u64;
    let c = b.vbl_fired();
    let d = c.timer_fired(now);
    if b.active is Some {
        reveal(RunnerView::vbl_fired);
        reveal(RunnerView::timer_fired);
        assert(d == b);
    } else {
        assert(b == a);
        lemma_vbl_low(b);
        if c.active is Some {
            reveal(RunnerView::timer_fired);
            assert(d == c);
        } else {
            assert(keeps_to_itself(c));
            lemma_timer_low(c, now);
            assert forall|x: u32| x < 0x1000 implies #[trigger] a.bus.get_byte(x) == d.bus.get_byte(x) by {
                assert(b.bus.get_byte(x) == c.bus.get_byte(x));
                assert(c.bus.get_byte(x) == d.bus.get_byte(x));
            }
            if d.active is None {
                lemma_quiet_timers(c, now);
            }
        }
    }
}

proof fn lemma_quiet_timers(s: RunnerView, now: u64)
    requires
        keeps_to_itself(s),
        s.timer_fired(now).active is None,
    ensures
        keeps_to_itself(s.timer_fired(now)),
{
    reveal(RunnerView::timer_fired);
    reveal(RunnerView::interrupted);
    let tasks = s.disp.timer_tasks;
    lemma_earliest_timer_in_range(tasks, now, tasks.len());
    let t = s.timer_fired(now);
    assert forall|i: int| 0 <= i < t.disp.timer_tasks.len() implies behind_low_memory(
        (#[trigger] t.disp.timer_tasks[i]).task_ptr,
    ) by {
        assert(behind_low_memory(tasks[i].task_ptr));
    }
}

/// A tick takes the tick count at $16A one further, shows the mouse button at $172 as
/// pressed (0) or not ($80), and takes the seconds at $20C one further in one of 60 ticks.
pub proof fn lemma_tick(s: RunnerView)
    requires
        keeps_to_itself(s),
    ensures
        ({
            let t = s.ticked();
            let tick = t.bus.get_long(0x16A);
            &&& tick == s.bus.get_long(0x16A).wrapping_add(1)
            &&& t.disp.tick_count == tick
            &&& tick % 60 != 0 ==> t.bus.get_long(0x20C) == s.bus.get_long(0x20C)
            &&& tick % 60 == 0 ==> t.bus.get_long(0x20C) == s.bus.get_long(0x20C).wrapping_add(1)
            &&& t.bus.get_byte(0x172) == 0 <==> s.disp.mouse_button || s.disp.unmatched_mouse_down()
            &&& t.bus.get_byte(0x172) == 0x80 <==> !s.disp.mouse_button && !s.disp.unmatched_mouse_down()
        }),
{
    broadcast use {group_memory_reads, group_memory_bytes};

    lemma_interrupt_work_spares_low_memory(s);
    let c = s.clocked().bus;
    let t = s.ticked();
    reveal(with_clock);
    lemma_same_low_long(c, t.bus, 0x16A);
    lemma_same_low_long(c, t.bus, 0x20C);
    assert(c.get_byte(0x172) == t.bus.get_byte(0x172));
    crate::laws::lemma_tick_count_after_tick(s);
}

/// `n` ticks, as many as pass without a callback, take the tick count `n` further, and the
/// seconds as many further as multiples of 60 were passed: one in any 60 ticks.
pub proof fn lemma_seconds(s: RunnerView, n: nat)
    requires
        keeps_to_itself(s),
        s.active is None,
        s.ticked_times(n).active is None,
        s.bus.get_long(0x16A) + n <= u32::MAX,
        s.bus.get_long(0x20C) + n <= u32::MAX,
    ensures
        ({
            let t = s.ticked_times(n);
            let tick = s.bus.get_long(0x16A) as int;
            &&& t.bus.get_long(0x16A) == tick + n
            &&& n > 0 ==> t.disp.tick_count == tick + n
            &&& t.bus.get_long(0x20C) - s.bus.get_long(0x20C) == (tick + n) / 60 - tick / 60
            &&& n == 60 ==> t.bus.get_long(0x20C) == s.bus.get_long(0x20C) + 1
            &&& keeps_to_itself(t)
        }),
    decreases n,
{
    if n > 0 {
        let u = s.ticked().refilled();
        lemma_tick(s);
        lemma_interrupt_work_spares_low_memory(s);
        lemma_seconds(u, (n - 1) as nat);
    }
}

/// A delay spends one of its ticks with every tick that passes, however it ends. It ends
/// when its ticks are spent, at the tick cap or at a callback; once they are spent, D0 has
/// the tick count.
pub proof fn lemma_delay_spends_ticks(s: RunnerView, cap: Option<u32>)
    requires
        keeps_to_itself(s),
        s.active is None,
        s.bus.get_long(0x16A) + s.disp.pending_delay_ticks <= u32::MAX,
    ensures
        ({
            let (t, capped) = s.delayed(cap);
            let left = t.disp.pending_delay_ticks;
            &&& t.bus.get_long(0x16A) + left == s.bus.get_long(0x16A) + s.disp.pending_delay_ticks
            &&& left == 0 ==> t.cpu.dar[0] == t.bus.get_long(0x16A)
            &&& capped ==> left > 0 && (cap matches Some(c) && t.bus.get_long(0x16A) >= c)
            &&& !capped && t.active is None ==> left == 0
        }),
    decreases s.disp.pending_delay_ticks,
{
    if s.disp.pending_delay_ticks > 0 && !s.reached(cap) {
        let spent = RunnerView {
            disp: DispView { pending_delay_ticks: (s.disp.pending_delay_ticks - 1) as u32, ..s.disp },
            ..s
        };
        lemma_ticked_keeps(spent);
        assert(keeps_to_itself(spent));
        lemma_tick(spent);
        lemma_interrupt_work_spares_low_memory(spent);
        lemma_tick_keeps_registers(spent);
        let u = spent.ticked().refilled();
        if u.active is None {
            lemma_delay_spends_ticks(u, cap);
        }
    }
}

proof fn lemma_tick_keeps_registers(s: RunnerView)
    requires
        s.cpu.dar.len() == 16,
    ensures
        s.ticked().cpu.dar.len() == 16,
{
    reveal(RunnerView::ticked);
    reveal(RunnerView::cursor_fired);
    reveal(RunnerView::vbl_fired);
    reveal(RunnerView::timer_fired);
    reveal(RunnerView::interrupted);
}

/// A delay that is served while the clock runs, without a tick cap or a callback, takes as
/// many ticks as were asked for.
pub proof fn lemma_delay_takes_its_ticks(s: RunnerView)
    requires
        keeps_to_itself(s),
        s.active is None,
        s.frozen_ticks is None,
        s.disp.pending_delay_ticks > 0,
        s.bus.get_long(0x16A) + s.disp.pending_delay_ticks <= u32::MAX,
        s.delay_served(None).0.active is None,
    ensures
        ({
            let (t, capped) = s.delay_served(None);
            &&& !capped
            &&& t.disp.pending_delay_ticks == 0
            &&& t.bus.get_long(0x16A) == s.bus.get_long(0x16A) + s.disp.pending_delay_ticks
            &&& t.cpu.dar[0] == t.bus.get_long(0x16A)
        }),
{
    lemma_delay_spends_ticks(s, None);
}

/// While the clock is stopped a delay or a sleep is over at once and no tick passes.
pub proof fn lemma_stopped_clock_waits_for_nobody(s: RunnerView, cap: Option<u32>)
    requires
        s.frozen_ticks is Some,
        s.active is None,
    ensures
        s.delay_served(cap) == (RunnerView { disp: DispView { pending_delay_ticks: 0, ..s.disp }, ..s }, false),
        s.disp.pending_wait_sleep_ticks > 0 ==> s.sleep_served(cap) == (
            RunnerView {
                disp: DispView { pending_wait_sleep_ticks: 0, pending_wait_next_event_return: None, ..s.disp },
                ..s
            },
            false,
        ),
        s.modal_idle_ticked(cap) == (s, true),
{
}

/// A sleep spends one of its ticks with every tick that passes, however it ends. It ends
/// when its ticks are spent, at the tick cap or at a callback.
pub proof fn lemma_sleep_spends_ticks(s: RunnerView, cap: Option<u32>)
    requires
        keeps_to_itself(s),
        s.active is None,
        s.bus.get_long(0x16A) + s.disp.pending_wait_sleep_ticks <= u32::MAX,
    ensures
        ({
            let t = s.slept(cap);
            let left = t.disp.pending_wait_sleep_ticks;
            &&& t.bus.get_long(0x16A) + left == s.bus.get_long(0x16A) + s.disp.pending_wait_sleep_ticks
            &&& t.active is None ==> left == 0 || (cap matches Some(c) && t.bus.get_long(0x16A) >= c)
        }),
    decreases s.disp.pending_wait_sleep_ticks,
{
    if s.disp.pending_wait_sleep_ticks > 0 && !s.reached(cap) {
        let spent = RunnerView {
            disp: DispView { pending_wait_sleep_ticks: (s.disp.pending_wait_sleep_ticks - 1) as u32, ..s.disp },
            ..s
        };
        lemma_ticked_keeps(spent);
        assert(keeps_to_itself(spent));
        lemma_tick(spent);
        lemma_interrupt_work_spares_low_memory(spent);
        let u = spent.ticked().refilled();
        if u.active is None {
            lemma_sleep_spends_ticks(u, cap);
        }
    }
}

/// A sleep that no event ends, without a tick cap or a callback, takes as many ticks as
/// were asked for, or as many as the host allows where that is less and the application
/// shows no dialog of its own; then nobody sleeps.
pub proof fn lemma_sleep_takes_its_ticks(s: RunnerView)
    requires
        keeps_to_itself(s),
        s.active is None,
        s.disp.pending_wait_sleep_ticks > 0,
        s.bus.get_long(0x16A) + s.disp.pending_wait_sleep_ticks <= u32::MAX,
        s.bus.get_long(0x20C) + s.disp.pending_wait_sleep_ticks <= u32::MAX,
        s.sleep_continued(None).0.active is None,
    ensures
        ({
            let (t, capped) = s.sleep_continued(None);
            let asked = s.disp.pending_wait_sleep_ticks;
            let passed = t.bus.get_long(0x16A) - s.bus.get_long(0x16A);
            &&& !capped
            &&& t.disp.pending_wait_sleep_ticks == 0
            &&& t.disp.pending_wait_next_event_return is None
            &&& s.wait_sleep_cap_in_headless is None ==> passed == asked
            &&& s.wait_sleep_cap_in_headless matches Some(most) ==> {
                &&& most >= asked || s.disp.shows_own_dialog() ==> passed == asked
                &&& most < asked && !s.disp.shows_own_dialog() ==> passed == most
            }
        }),
{
    match s.wait_sleep_cap_in_headless {
        None => {
            lemma_sleep_spends_ticks(s, None);
        },
        Some(most) => {
            let e = RunnerView { disp: s.disp.awake().unparked(), ..s };
            let n = if !s.disp.shows_own_dialog() && most < s.disp.pending_wait_sleep_ticks {
                most
            } else {
                s.disp.pending_wait_sleep_ticks
            };
            assert(keeps_to_itself(e));
            lemma_seconds(e, n as nat);
            lemma_ticks_keep_sleep(e, n as nat);
        },
    }
}

proof fn lemma_ticks_keep_sleep(s: RunnerView, n: nat)
    ensures
        s.ticked_times(n).disp.pending_wait_sleep_ticks == s.disp.pending_wait_sleep_ticks,
        s.ticked_times(n).disp.pending_wait_next_event_return == s.disp.pending_wait_next_event_return,
    decreases n,
{
    if n > 0 {
        lemma_ticked_keeps(s);
        let u = s.ticked().refilled();
        if u.active is None {
            lemma_ticks_keep_sleep(u, (n - 1) as nat);
        }
    }
}

/// The instructions that are charged are paid with the ticks that pass: what is left until
/// the next tick is what was left before, less what was charged, and a tick's worth of
/// instructions more for each tick that passed. Where neither the cap nor a callback stops
/// them, as many ticks pass as make what is left positive, and no more.
pub proof fn lemma_charge_is_paid_in_ticks(s: RunnerView, units: i32, cap: Option<u32>)
    requires
        keeps_to_itself(s),
        s.active is None,
        s.frozen_ticks is None,
        1 <= s.instructions_per_tick <= 0x7fff_ffff,
        0 < units,
        i32::MIN <= s.tick_budget - units,
        s.bus.get_long(0x16A) + 0x8000_0001 <= u32::MAX,
    ensures
        ({
            let (t, capped) = s.charged(units, cap);
            let passed = t.bus.get_long(0x16A) - s.bus.get_long(0x16A);
            &&& passed >= 0
            &&& t.tick_budget == s.tick_budget - units + passed * s.instructions_per_tick
            &&& s.tick_budget - units > 0 ==> passed == 0
            &&& passed > 0 ==> t.tick_budget <= s.instructions_per_tick
            &&& !capped && t.active is None ==> t.tick_budget > 0
            &&& t.instructions_per_tick == s.instructions_per_tick
        }),
{
    lemma_budget_is_paid(RunnerView { tick_budget: (s.tick_budget - units) as i32, ..s }, cap);
}

proof fn lemma_budget_is_paid(s: RunnerView, cap: Option<u32>)
    requires
        keeps_to_itself(s),
        s.active is None,
        s.frozen_ticks is None,
        1 <= s.instructions_per_tick <= 0x7fff_ffff,
        s.tick_budget <= 0 ==> s.bus.get_long(0x16A) + 1 - s.tick_budget <= u32::MAX,
    ensures
        ({
            let (t, capped) = s.budget_ticks(cap);
            let passed = t.bus.get_long(0x16A) - s.bus.get_long(0x16A);
            &&& passed >= 0
            &&& t.tick_budget == s.tick_budget + passed * s.instructions_per_tick
            &&& s.tick_budget > 0 ==> passed == 0
            &&& passed > 0 ==> t.tick_budget <= s.instructions_per_tick
            &&& !capped && t.active is None ==> t.tick_budget > 0
            &&& t.instructions_per_tick == s.instructions_per_tick
        }),
    decreases (if s.tick_budget <= 0 { 1 - s.tick_budget } else { 0 }),
{
    if s.tick_budget <= 0 && !s.reached(cap) {
        lemma_ticked_keeps(s);
        lemma_tick(s);
        lemma_interrupt_work_spares_low_memory(s);
        let u = RunnerView { tick_budget: (s.tick_budget + s.instructions_per_tick) as i32, ..s.ticked() };
        assert(u.bus.get_long(0x16A) == s.bus.get_long(0x16A) + 1);
        if u.active is None && !u.reached(cap) {
            lemma_budget_is_paid(u, cap);
            let t = u.budget_ticks(cap).0;
            let k = t.bus.get_long(0x16A) - u.bus.get_long(0x16A);
            let i = s.instructions_per_tick as int;
            assert((k + 1) * i == k * i + i) by (nonlinear_arith);
        }
    }
    let passed = s.budget_ticks(cap).0.bus.get_long(0x16A) - s.bus.get_long(0x16A);
    let i = s.instructions_per_tick as int;
    assert(passed == 0 ==> passed * i == 0) by (nonlinear_arith);
    assert(passed == 1 ==> passed * i == i) by (nonlinear_arith);
}

/// Charging nothing, and charging while a callback runs, lets no time pass.
pub proof fn lemma_callbacks_are_free(s: RunnerView, units: i32, cap: Option<u32>)
    requires
        units <= 0 || s.active is Some,
    ensures
        s.charged(units, cap) == (s, false),
{
}

/// A modal dialog's idle tick is one tick, unless the tick cap was reached.
pub proof fn lemma_dialog_idles_by_ticks(s: RunnerView, cap: Option<u32>)
    requires
        keeps_to_itself(s),
        s.active is None,
        s.frozen_ticks is None,
    ensures
        ({
            let (t, over) = s.modal_idle_ticked(cap);
            let capped = cap matches Some(c) && s.bus.get_long(0x16A) >= c;
            &&& capped ==> t == s && over
            &&& !capped ==> t.bus.get_long(0x16A) == s.bus.get_long(0x16A).wrapping_add(1) && t.tick_budget
                == s.instructions_per_tick as i32
            &&& !capped ==> (over <==> (cap matches Some(c) ==> t.bus.get_long(0x16A) >= c))
        }),
{
    lemma_tick(s);
    lemma_ticked_keeps(s);
}

/// A clock that is let go at some tick shows that tick, in memory and in the Toolbox.
pub proof fn lemma_clock_is_let_go(s: RunnerView, target: Option<u32>)
    requires
        0x1000 <= s.bus.mem.len() <= 0x1_0000_0000,
    ensures
        ({
            let t = s.unfrozen_to(target);
            &&& t.frozen_ticks is None
            &&& target matches Some(k) ==> t.bus.get_long(0x16A) == k && t.disp.tick_count == k
            &&& target is None ==> t.bus == s.bus && t.disp == s.disp
            &&& t.bus.get_long(0x20C) == s.bus.get_long(0x20C)
            &&& t.cpu == s.cpu
        }),
{
    broadcast use group_memory_reads;

}

/// An application that has no instructions left until the next tick gets at least two, and
/// a tick's worth where that is more; one that has some keeps them.
pub proof fn lemma_foreground_gets_instructions(s: RunnerView)
    requires
        1 <= s.instructions_per_tick <= 0x7fff_ffff,
    ensures
        s.tick_budget > 0 ==> s.foreground_refilled() == s,
        s.tick_budget <= 0 ==> s.foreground_refilled().tick_budget >= 2 && s.foreground_refilled().tick_budget
            >= s.instructions_per_tick && s.foreground_refilled().tick_budget <= s.instructions_per_tick + 1,
        s.foreground_refilled() == (RunnerView { tick_budget: s.foreground_refilled().tick_budget, ..s }),
{
}

/// A sleeping `WaitNextEvent` wakes with the event that it waits for: the event is in its
/// record, its result is -1, the event is taken, and nobody sleeps any more.
pub proof fn lemma_sleeper_gets_its_event(
    d: DispView,
    b: BusView,
    pc: u32,
    sp: u32,
    p: PendingWaitNextEventReturn,
    ev: QueuedEvent,
)
    requires
        d.pending_wait_next_event_return == Some(p),
        p.resume_pc == Some(pc),
        p.resume_sp == Some(sp),
        d.next_event(p.event_mask) == Some(ev),
        p.event_ptr + 16 <= b.mem.len() <= 0x1_0000_0000,
        p.result_ptr + 2 <= b.mem.len(),
        apart(p.event_ptr, 16, p.result_ptr, 2),
    ensures
        ({
            let (e, c, woke) = d.delivered(b, pc, sp);
            &&& woke
            &&& c.get_word(p.result_ptr) == 0xFFFF
            &&& c.get_word(p.event_ptr) == ev.what
            &&& c.get_long((p.event_ptr + 2) as u32) == ev.message
            &&& c.get_long((p.event_ptr + 6) as u32) == d.tick_count
            &&& signed(c.get_word((p.event_ptr + 10) as u32)) == ev.where_v
            &&& signed(c.get_word((p.event_ptr + 12) as u32)) == ev.where_h
            &&& c.get_word((p.event_ptr + 14) as u32) == ev.modifiers
            &&& e.pending_wait_sleep_ticks == 0
            &&& e.pending_wait_next_event_return is None
            &&& e.event_queue == d.without_next_event(p.event_mask).event_queue
        }),
{
    broadcast use group_memory_reads;

    reveal(DispView::delivered);
    lemma_signed_back(ev.where_v);
    lemma_signed_back(ev.where_h);
}

/// A sleeper that nothing concerns sleeps on: no event for it, and the mouse within the
/// region that it named.
pub proof fn lemma_sleeper_sleeps_on(d: DispView, b: BusView, pc: u32, sp: u32, p: PendingWaitNextEventReturn)
    requires
        d.pending_wait_next_event_return == Some(p),
        p.resume_pc == Some(pc),
        p.resume_sp == Some(sp),
        d.next_event(p.event_mask) is None,
        p.mouse_rgn == 0 || p.event_mask & 0x8000 == 0,
    ensures
        d.delivered(b, pc, sp) == (d, b, false),
{
    reveal(DispView::delivered);
}

/// A sleeper that is woken for nothing finds a null event and the result 0.
pub proof fn lemma_polled_sleeper_gets_nothing(d: DispView, b: BusView, pc: u32, sp: u32, p: PendingWaitNextEventReturn)
    requires
        d.pending_wait_next_event_return == Some(p),
        d.pending_wait_sleep_ticks > 0,
        p.resume_pc == Some(pc),
        p.resume_sp == Some(sp),
        p.event_ptr + 16 <= b.mem.len() <= 0x1_0000_0000,
        p.result_ptr + 2 <= b.mem.len(),
        apart(p.event_ptr, 16, p.result_ptr, 2),
    ensures
        ({
            let (e, c, woke) = d.polled(b, pc, sp);
            &&& woke
            &&& c.get_word(p.result_ptr) == 0
            &&& c.get_word(p.event_ptr) == 0
            &&& c.get_long((p.event_ptr + 6) as u32) == d.tick_count
            &&& e.pending_wait_sleep_ticks == 0
            &&& e.pending_wait_next_event_return is None
            &&& e.event_queue == d.event_queue
        }),
{
    broadcast use group_memory_reads;

    reveal(DispView::polled);
}

} // verus!

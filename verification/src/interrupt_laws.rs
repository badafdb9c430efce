use vstd::prelude::*;

use crate::clock_laws::{keeps_to_itself, lemma_interrupt_work_spares_low_memory, lemma_same_low_long};
use crate::events::{TimerTask, VblTask};
use crate::interrupts::{callback_sr, level_one_open};
use crate::memory::{apart, group_memory_bytes, group_memory_lengths, group_memory_reads, long_at, word_at, BusView};
use crate::memory_laws::{lemma_signed, lemma_signed_back, signed};
use crate::runner::{ActiveInterruptCallbackSource, RunnerView};
use crate::stubs::{cursor_stub, timer_stub, vbl_stub};
use crate::ticks::with_clock;
use crate::timers::{earliest_timer, lemma_earliest_timer_in_range, vbl_countdown, SUBTICKS_PER_TICK};
use crate::trap::DispView;

verus! {

broadcast use group_memory_lengths;

/// At `t` stands code that saves D0-D3/A0-A3, loads an address register by the instruction
/// `load` with `operand`, calls `routine`, restores the registers and returns.
pub open spec fn calls_with(b: BusView, t: u32, load: u16, operand: u32, routine: u32) -> bool {
    &&& has_calling_code(b, t, load)
    &&& b.get_long((t + 6) as u32) == operand
    &&& b.get_long((t + 12) as u32) == routine
}

/// The same without its operand and its routine.
pub open spec fn has_calling_code(b: BusView, t: u32, load: u16) -> bool {
    &&& b.get_word(t) == 0x48E7
    &&& b.get_word((t + 2) as u32) == 0xF0F0
    &&& b.get_word((t + 4) as u32) == load
    &&& b.get_word((t + 10) as u32) == 0x4EB9
    &&& b.get_word((t + 16) as u32) == 0x4CDF
    &&& b.get_word((t + 18) as u32) == 0x0F0F
    &&& b.get_word((t + 20) as u32) == 0x4E75
}

/// Interrupts of level one are open while the priority in bits 8 to 10 is zero.
pub proof fn lemma_level_one(sr: u16)
    ensures
        level_one_open(sr) <==> sr / 256 % 8 == 0,
{
    assert(sr & 0x0700 < 0x0100 <==> sr / 256 % 8 == 0) by (bit_vector);
}

/// Retrace work runs in supervisor mode at level one, its other status bits being those of
/// what it interrupts; other callbacks leave the status register.
pub proof fn lemma_callback_status(source: ActiveInterruptCallbackSource, sr: u16)
    ensures
        ({
            let r = callback_sr(source, sr);
            let retrace = source is Vbl || source is CursorTask;
            &&& retrace ==> r / 256 % 8 == 1 && r / 0x2000 % 2 == 1 && r % 256 == sr % 256 && r / 0x4000 == sr / 0x4000
                && r / 0x800 % 4 == sr / 0x800 % 4
            &&& !retrace ==> r == sr
        }),
{
    assert(({
        let r = (sr & 0xF8FF) | 0x2100;
        r / 256 % 8 == 1 && r / 0x2000 % 2 == 1 && r % 256 == sr % 256 && r / 0x4000 == sr / 0x4000 && r / 0x800 % 4
            == sr / 0x800 % 4
    })) by (bit_vector);
}

/// An interrupted application finds its program counter on top of the stack; execution
/// goes on at the stub, no other register changes, and all that was is remembered.
pub proof fn lemma_interruption(s: RunnerView, source: ActiveInterruptCallbackSource, stub: u32, i: int, a: u32)
    requires
        s.cpu.dar.len() == 16,
        4 <= s.cpu.dar[15] <= s.bus.mem.len() <= 0x1_0000_0000,
        0 <= i < 15,
        a < s.cpu.dar[15] - 4 || a >= s.cpu.dar[15],
    ensures
        ({
            let t = s.interrupted(source, stub);
            &&& t.bus.get_long((s.cpu.dar[15] - 4) as u32) == s.cpu.pc
            &&& t.bus.get_byte(a) == s.bus.get_byte(a)
            &&& t.cpu.dar[15] == s.cpu.dar[15] - 4
            &&& t.cpu.dar[i] == s.cpu.dar[i]
            &&& t.cpu.pc == stub
            &&& t.active matches Some(x) && {
                &&& x.source == source
                &&& x.resume_pc == s.cpu.pc
                &&& x.resume_sp == s.cpu.dar[15]
                &&& x.d_regs + x.a_regs == s.cpu.dar
                &&& x.sr == s.cpu.sr
                &&& x.ccr == s.cpu.sr % 256
                &&& x.restore_port is None
            }
            &&& t.disp == s.disp
            &&& t.tick_budget == s.tick_budget
        }),
{
    broadcast use {group_memory_reads, group_memory_bytes};

    reveal(RunnerView::interrupted);
    assert(s.cpu.dar.subrange(0, 8) + s.cpu.dar.subrange(8, 16) =~= s.cpu.dar);
}

/// The retrace count of the task whose record is at `ptr`.
pub open spec fn retrace_count(b: BusView, ptr: u32) -> int {
    signed(b.get_word((ptr + 10) as u32))
}

proof fn lemma_lone_countdown(b: BusView, tasks: Seq<VblTask>)
    requires
        tasks.len() == 1,
        tasks[0].task_ptr + 14 <= b.mem.len() <= 0x1_0000_0000,
    ensures
        ({
            let ptr = tasks[0].task_ptr;
            let n = retrace_count(b, ptr);
            let (c, due) = vbl_countdown(b, tasks, 0);
            &&& n <= 0 ==> c == b && due is None
            &&& n > 0 ==> c == b.word((ptr + 10) as u32, (n - 1) as u16)
            &&& n > 1 ==> due is None
            &&& n == 1 ==> due == Some(ptr)
        }),
{
    reveal_with_fuel(vbl_countdown, 2);
    let ptr = tasks[0].task_ptr;
    lemma_signed(b.get_word((ptr + 10) as u32));
    let count = b.get_word((ptr + 10) as u32) as i16;
    if count > 0 {
        lemma_signed_back((count - 1) as i16);
    }
}

/// A lone retrace task's count goes down by one when the tasks have their chance, as long
/// as it is positive; a task whose count was more than one is not called. A count that is
/// not positive rests, and nothing happens.
pub proof fn lemma_retrace_count_goes_down(s: RunnerView, ptr: u32, a: u32)
    requires
        s.active is None,
        s.cpu.sr / 256 % 8 == 0,
        s.disp.vbl_tasks.len() == 1,
        s.disp.vbl_tasks[0].task_ptr == ptr,
        ptr + 14 <= s.bus.mem.len() <= 0x1_0000_0000,
    ensures
        ({
            let n = retrace_count(s.bus, ptr);
            let t = s.vbl_fired();
            &&& n <= 0 ==> t == s
            &&& n > 1 ==> retrace_count(t.bus, ptr) == n - 1
            &&& n > 1 ==> t == (RunnerView { bus: BusView { mem: t.bus.mem, ..s.bus }, ..s })
            &&& n > 1 && a != ptr + 10 && a != ptr + 11 ==> t.bus.get_byte(a) == s.bus.get_byte(a)
            &&& n == 1 && s.bus.get_long((ptr + 6) as u32) == 0 ==> t.active is None && retrace_count(t.bus, ptr) == 0
        }),
{
    broadcast use {group_memory_reads, group_memory_bytes};

    reveal(RunnerView::vbl_fired);
    lemma_level_one(s.cpu.sr);
    lemma_lone_countdown(s.bus, s.disp.vbl_tasks);
    let n = retrace_count(s.bus, ptr);
    lemma_signed((n - 1) as u16);
}

/// A lone retrace task whose count was one is called: execution goes on in code that calls
/// the task's routine with the record's address in A0, the count is zero, and the
/// application is remembered with its program counter on the stack.
pub proof fn lemma_due_retrace_task_is_called(s: RunnerView, ptr: u32)
    requires
        s.active is None,
        s.cpu.dar.len() == 16,
        s.cpu.sr / 256 % 8 == 0,
        s.disp.vbl_tasks.len() == 1,
        s.disp.vbl_tasks[0].task_ptr == ptr,
        retrace_count(s.bus, ptr) == 1,
        s.bus.get_long((ptr + 6) as u32) != 0,
        ptr + 14 <= s.bus.mem.len() <= 0x1_0000_0000,
        4 <= s.cpu.dar[15] <= s.bus.mem.len(),
        ({
            let stub = if s.vbl_trampoline == 0 { s.bus.stubs } else { s.vbl_trampoline };
            &&& s.vbl_trampoline == 0 ==> 0 < stub <= 0x7F00
            &&& s.vbl_trampoline != 0 ==> has_calling_code(s.bus, stub, 0x207C)
            &&& stub + 22 <= s.bus.mem.len()
            &&& apart(stub, 22, ptr, 14)
            &&& apart(stub, 22, (s.cpu.dar[15] - 4) as u32, 4)
            &&& apart(ptr, 14, (s.cpu.dar[15] - 4) as u32, 4)
        }),
    ensures
        ({
            let t = s.vbl_fired();
            let stub = if s.vbl_trampoline == 0 { s.bus.stubs } else { s.vbl_trampoline };
            &&& t.active matches Some(x) && x.source is Vbl && x.resume_pc == s.cpu.pc && x.resume_sp == s.cpu.dar[15]
            &&& t.cpu.pc == stub
            &&& calls_with(t.bus, stub, 0x207C, ptr, s.bus.get_long((ptr + 6) as u32))
            &&& t.vbl_trampoline == stub
            &&& t.bus.get_long((s.cpu.dar[15] - 4) as u32) == s.cpu.pc
            &&& retrace_count(t.bus, ptr) == 0
        }),
{
    broadcast use {group_memory_reads, group_memory_bytes};

    reveal(RunnerView::vbl_fired);
    reveal(RunnerView::interrupted);
    reveal(vbl_stub);
    lemma_level_one(s.cpu.sr);
    lemma_lone_countdown(s.bus, s.disp.vbl_tasks);
    lemma_signed(0);
}

/// The retrace tasks have room of their own.
pub open spec fn tasks_apart(b: BusView, tasks: Seq<VblTask>) -> bool {
    &&& b.mem.len() <= 0x1_0000_0000
    &&& forall|i: int| 0 <= i < tasks.len() ==> (#[trigger] tasks[i]).task_ptr + 14 <= b.mem.len()
    &&& forall|i: int, j: int|
        0 <= i < j < tasks.len() ==> apart((#[trigger] tasks[i]).task_ptr, 14, (#[trigger] tasks[j]).task_ptr, 14)
}

proof fn lemma_countdown_spares(b: BusView, tasks: Seq<VblTask>, i: int, at: u32)
    requires
        0 <= i,
        tasks_apart(b, tasks),
        at + 2 <= 0x1_0000_0000,
        forall|k: int| i <= k < tasks.len() ==> apart((#[trigger] tasks[k]).task_ptr, 14, at, 2),
    ensures
        vbl_countdown(b, tasks, i).0.get_word(at) == b.get_word(at),
    decreases tasks.len() - i,
{
    broadcast use group_memory_reads;

    if i < tasks.len() {
        let count = b.get_word(tasks[i].task_ptr.wrapping_add(10)) as i16;
        let c = b.word(tasks[i].task_ptr.wrapping_add(10), (count - 1) as u16);
        lemma_countdown_spares(b, tasks, i + 1, at);
        assert(tasks_apart(c, tasks));
        lemma_countdown_spares(c, tasks, i + 1, at);
    }
}

/// Every retrace task counts down by one, up to and with the first that becomes due; those
/// behind it keep their count, and so do those whose count is not positive. The one that
/// is called is the first whose count was one.
pub proof fn lemma_retrace_tasks_count_down(b: BusView, tasks: Seq<VblTask>, j: int)
    requires
        tasks_apart(b, tasks),
        0 <= j < tasks.len(),
    ensures
        ({
            let (c, due) = vbl_countdown(b, tasks, 0);
            let n = retrace_count(b, tasks[j].task_ptr);
            let later = exists|k: int| 0 <= k < j && retrace_count(b, (#[trigger] tasks[k]).task_ptr) == 1;
            &&& !later && n > 0 ==> retrace_count(c, tasks[j].task_ptr) == n - 1
            &&& later || n <= 0 ==> retrace_count(c, tasks[j].task_ptr) == n
            &&& !later && n == 1 ==> due == Some(tasks[j].task_ptr)
            &&& !later && j == tasks.len() - 1 && n != 1 ==> due is None
        }),
{
    lemma_countdown_from(b, tasks, 0, j);
}

proof fn lemma_countdown_from(b: BusView, tasks: Seq<VblTask>, i: int, j: int)
    requires
        tasks_apart(b, tasks),
        0 <= i <= j < tasks.len(),
    ensures
        ({
            let (c, due) = vbl_countdown(b, tasks, i);
            let n = retrace_count(b, tasks[j].task_ptr);
            let later = exists|k: int| i <= k < j && retrace_count(b, (#[trigger] tasks[k]).task_ptr) == 1;
            &&& !later && n > 0 ==> retrace_count(c, tasks[j].task_ptr) == n - 1
            &&& later || n <= 0 ==> retrace_count(c, tasks[j].task_ptr) == n
            &&& !later && n == 1 ==> due == Some(tasks[j].task_ptr)
            &&& !later && j == tasks.len() - 1 && n != 1 ==> due is None
        }),
    decreases tasks.len() - i,
{
    broadcast use group_memory_reads;

    let at = tasks[i].task_ptr.wrapping_add(10);
    lemma_signed(b.get_word(at));
    let count = b.get_word(at) as i16;
    let c = if count <= 0 { b } else { b.word(at, (count - 1) as u16) };
    if count > 0 {
        lemma_signed_back((count - 1) as i16);
    }
    assert(tasks_apart(c, tasks));
    assert(c.get_word(at) == if count > 0 { (count - 1) as u16 } else { b.get_word(at) });
    if i == j {
        if count != 1 {
            assert forall|k: int| i + 1 <= k < tasks.len() implies apart((#[trigger] tasks[k]).task_ptr, 14, at, 2) by {
                assert(apart(tasks[i].task_ptr, 14, tasks[k].task_ptr, 14));
            }
            lemma_countdown_spares(c, tasks, i + 1, at);
            assert(i == tasks.len() - 1 ==> vbl_countdown(c, tasks, i + 1) == (c, None::<u32>));
        }
    } else {
        assert forall|k: int| i < k < tasks.len() implies retrace_count(c, (#[trigger] tasks[k]).task_ptr)
            == retrace_count(b, tasks[k].task_ptr) by {
            assert(apart(tasks[i].task_ptr, 14, tasks[k].task_ptr, 14));
        }
        if count == 1 {
            assert(retrace_count(b, tasks[i].task_ptr) == 1);
        } else {
            lemma_countdown_from(c, tasks, i + 1, j);
            assert(retrace_count(b, tasks[i].task_ptr) != 1);
            if exists|k: int| i <= k < j && retrace_count(b, (#[trigger] tasks[k]).task_ptr) == 1 {
                let k = choose|k: int| i <= k < j && retrace_count(b, (#[trigger] tasks[k]).task_ptr) == 1;
                assert(i + 1 <= k < j && retrace_count(c, tasks[k].task_ptr) == 1);
            }
        }
    }
}

/// A single retrace task with its record at `ptr` is all the interrupt work there is.
pub open spec fn lone_retrace_task(s: RunnerView, ptr: u32) -> bool {
    &&& keeps_to_itself(s)
    &&& s.active is None
    &&& s.cpu.sr / 256 % 8 == 0
    &&& s.disp.vbl_tasks.len() == 1
    &&& s.disp.vbl_tasks[0].task_ptr == ptr
    &&& s.disp.timer_tasks.len() == 0
    &&& s.bus.get_long(0x8EE) == 0 || s.bus.get_long(0x8EE) == 0x60
    &&& 0x1000 <= ptr
    &&& ptr + 14 <= s.bus.mem.len()
}

/// The clock writes low memory only.
pub proof fn lemma_clock_writes_low_memory(b: BusView, tick: u32, pressed: bool, a: u32)
    requires
        a >= 0x1000,
    ensures
        with_clock(b, tick, pressed).get_byte(a) == b.get_byte(a),
{
    broadcast use group_memory_bytes;

    reveal(with_clock);
}

proof fn lemma_clocked_record(s: RunnerView, ptr: u32)
    requires
        lone_retrace_task(s, ptr),
    ensures
        lone_retrace_task(s.clocked(), ptr),
        retrace_count(s.clocked().bus, ptr) == retrace_count(s.bus, ptr),
        s.clocked().bus.get_long((ptr + 6) as u32) == s.bus.get_long((ptr + 6) as u32),
        s.clocked().bus.mem.len() == s.bus.mem.len(),
{
    let b = s.unwatched().bus;
    let tick = s.tick().wrapping_add(1);
    let pressed = s.disp.mouse_button || s.disp.unmatched_mouse_down();
    assert forall|a: u32| a >= 0x1000 implies #[trigger] s.bus.get_byte(a) == s.clocked().bus.get_byte(a) by {
        lemma_clock_writes_low_memory(b, tick, pressed, a);
    }
    lemma_same_word(s.bus, s.clocked().bus, (ptr + 10) as u32);
    lemma_same_long(s.bus, s.clocked().bus, (ptr + 6) as u32);
    assert(s.clocked().bus.get_long(0x8EE) == s.bus.get_long(0x8EE)) by {
        broadcast use group_memory_reads;

        reveal(with_clock);
    }
    reveal(with_clock);
}

/// A word is the same where its two bytes are.
pub proof fn lemma_same_word(b: BusView, c: BusView, a: u32)
    requires
        a + 2 <= 0x1_0000_0000,
        b.get_byte(a) == c.get_byte(a),
        b.get_byte((a + 1) as u32) == c.get_byte((a + 1) as u32),
    ensures
        b.get_word(a) == c.get_word(a),
{
    reveal(word_at);
}

/// A long is the same where its four bytes are.
pub proof fn lemma_same_long(b: BusView, c: BusView, a: u32)
    requires
        a + 4 <= 0x1_0000_0000,
        b.get_byte(a) == c.get_byte(a),
        b.get_byte((a + 1) as u32) == c.get_byte((a + 1) as u32),
        b.get_byte((a + 2) as u32) == c.get_byte((a + 2) as u32),
        b.get_byte((a + 3) as u32) == c.get_byte((a + 3) as u32),
    ensures
        b.get_long(a) == c.get_long(a),
{
    reveal(long_at);
    reveal(word_at);
}

/// With a lone retrace task, a tick lowers a positive count by exactly one; the task is
/// called in the tick in which its count comes to zero, and in no other.
pub proof fn lemma_tick_counts_down(s: RunnerView, ptr: u32)
    requires
        lone_retrace_task(s, ptr),
        s.bus.get_long((ptr + 6) as u32) != 0,
    ensures
        ({
            let n = retrace_count(s.bus, ptr);
            let t = s.ticked();
            &&& n > 1 ==> retrace_count(t.bus, ptr) == n - 1
            &&& n <= 0 ==> retrace_count(t.bus, ptr) == n
            &&& n != 1 ==> lone_retrace_task(t, ptr) && t.cpu == s.cpu && t.bus.get_long((ptr + 6) as u32)
                == s.bus.get_long((ptr + 6) as u32)
            &&& n == 1 <==> t.active is Some
            &&& n == 1 ==> (t.active matches Some(x) && x.source is Vbl && x.resume_pc == s.cpu.pc)
        }),
{
    broadcast use group_memory_reads;

    reveal(RunnerView::ticked);
    let a = s.clocked();
    lemma_clocked_record(s, ptr);
    assert(a.cursor_fired() == a) by {
        reveal(RunnerView::cursor_fired);
    }
    lemma_retrace_count_goes_down(a, ptr, 0);
    lemma_interrupt_work_spares_low_memory(s);
    let n = retrace_count(s.bus, ptr);
    let b = a.vbl_fired();
    let now = (s.tick().wrapping_add(1) * SUBTICKS_PER_TICK) as u64;
    if n == 1 {
        reveal(RunnerView::vbl_fired);
        reveal(RunnerView::interrupted);
        reveal(RunnerView::timer_fired);
        lemma_level_one(a.cpu.sr);
        lemma_lone_countdown(a.bus, a.disp.vbl_tasks);
    } else {
        assert(b.timer_fired(now) == (RunnerView {
            disp: DispView { timer_current_subtick: now, ..b.disp },
            ..b
        })) by {
            reveal(RunnerView::timer_fired);
        }
        let t = s.ticked();
        lemma_same_low_long(a.bus, t.bus, 0x8EE);
        lemma_retrace_count_goes_down(a, ptr, (ptr + 6) as u32);
        lemma_retrace_count_goes_down(a, ptr, (ptr + 7) as u32);
        lemma_retrace_count_goes_down(a, ptr, (ptr + 8) as u32);
        lemma_retrace_count_goes_down(a, ptr, (ptr + 9) as u32);
        lemma_same_long(a.bus, b.bus, (ptr + 6) as u32);
    }
}

/// A lone retrace task with a positive count of `n` is called at the `n`-th tick and at
/// none before it; after fewer ticks its count is lower by as many.
pub proof fn lemma_retrace_task_is_called_when_due(s: RunnerView, ptr: u32, m: nat)
    requires
        lone_retrace_task(s, ptr),
        s.bus.get_long((ptr + 6) as u32) != 0,
        0 < retrace_count(s.bus, ptr),
        m <= retrace_count(s.bus, ptr),
    ensures
        ({
            let n = retrace_count(s.bus, ptr);
            let t = s.ticked_times(m);
            &&& m < n ==> t.active is None && retrace_count(t.bus, ptr) == n - m && t.cpu == s.cpu
            &&& m == n ==> (t.active matches Some(x) && x.source is Vbl && x.resume_pc == s.cpu.pc)
        }),
    decreases m,
{
    if m > 0 {
        lemma_tick_counts_down(s, ptr);
        let u = s.ticked().refilled();
        if retrace_count(s.bus, ptr) > 1 {
            assert(lone_retrace_task(u, ptr));
            lemma_retrace_task_is_called_when_due(u, ptr, (m - 1) as nat);
        }
    }
}

/// A timer task may fire: it is primed, its time has come, and it has not fired in the
/// tick of that time.
pub open spec fn may_fire(task: TimerTask, now: u64) -> bool {
    task.active && task.fire_at_subtick <= now && (task.last_fired_tick matches Some(t) ==> t != now / 1_000_000)
}

/// Timer tasks whose time has not come, that are not primed, or that have fired in this
/// tick are not called.
pub proof fn lemma_no_timer_fires_early(s: RunnerView, now: u64)
    requires
        s.active is None,
        now / 1_000_000 <= u32::MAX,
        forall|i: int| 0 <= i < s.disp.timer_tasks.len() ==> !may_fire(#[trigger] s.disp.timer_tasks[i], now),
    ensures
        s.timer_fired(now) == (RunnerView { disp: DispView { timer_current_subtick: now, ..s.disp }, ..s }),
{
    reveal(RunnerView::timer_fired);
    let tasks = s.disp.timer_tasks;
    lemma_earliest_timer_in_range(tasks, now, tasks.len());
    if let Some(k) = earliest_timer(tasks, now, tasks.len()) {
        assert(may_fire(tasks[k], now));
    }
}

proof fn lemma_earliest_is(tasks: Seq<TimerTask>, now: u64, n: nat, i: int)
    requires
        0 <= i < n <= tasks.len(),
        now / 1_000_000 <= u32::MAX,
        may_fire(tasks[i], now),
        forall|j: int|
            0 <= j < n && j != i && may_fire(#[trigger] tasks[j], now) ==> tasks[i].fire_at_subtick
                < tasks[j].fire_at_subtick || (tasks[i].fire_at_subtick == tasks[j].fire_at_subtick && i < j),
    ensures
        earliest_timer(tasks, now, n) == Some(i),
    decreases n,
{
    if i < n - 1 {
        lemma_earliest_is(tasks, now, (n - 1) as nat, i);
        assert(crate::timers::timer_ready(tasks[n - 1], now) ==> may_fire(tasks[n - 1], now));
    } else {
        lemma_earliest_timer_in_range(tasks, now, (n - 1) as nat);
        if let Some(k) = earliest_timer(tasks, now, (n - 1) as nat) {
            assert(may_fire(tasks[k], now));
        }
    }
}

/// Of the timer tasks that may fire, the one with the earliest time is called, the first
/// of those that share it: execution goes on in code that calls its routine with the
/// record's address in A1. It is no longer primed, it has fired in this tick, and the top
/// bit of its queue type is clear. The others stay as they are.
pub proof fn lemma_earliest_timer_is_called(s: RunnerView, now: u64, i: int)
    requires
        s.active is None,
        s.cpu.dar.len() == 16,
        now / 1_000_000 <= u32::MAX,
        0 <= i < s.disp.timer_tasks.len(),
        may_fire(s.disp.timer_tasks[i], now),
        forall|j: int|
            0 <= j < s.disp.timer_tasks.len() && j != i && may_fire(#[trigger] s.disp.timer_tasks[j], now)
                ==> s.disp.timer_tasks[i].fire_at_subtick < s.disp.timer_tasks[j].fire_at_subtick || (
            s.disp.timer_tasks[i].fire_at_subtick == s.disp.timer_tasks[j].fire_at_subtick && i < j),
        s.disp.timer_tasks[i].tm_addr != 0,
        s.bus.mem.len() <= 0x1_0000_0000,
        4 <= s.cpu.dar[15] <= s.bus.mem.len(),
        ({
            let ptr = s.disp.timer_tasks[i].task_ptr;
            let stub = if s.timer_trampoline == 0 { s.bus.heap } else { s.timer_trampoline };
            &&& s.timer_trampoline == 0 ==> 0 < stub && s.bus.has_room(24)
            &&& s.timer_trampoline != 0 ==> has_calling_code(s.bus, stub, 0x227C)
            &&& stub + 22 <= s.bus.mem.len()
            &&& ptr + 6 <= s.bus.mem.len()
            &&& apart(stub, 22, ptr, 6)
            &&& apart(stub, 22, (s.cpu.dar[15] - 4) as u32, 4)
            &&& apart(ptr, 6, (s.cpu.dar[15] - 4) as u32, 4)
        }),
    ensures
        ({
            let t = s.timer_fired(now);
            let task = s.disp.timer_tasks[i];
            let stub = if s.timer_trampoline == 0 { s.bus.heap } else { s.timer_trampoline };
            let kind = (task.task_ptr + 4) as u32;
            &&& t.active matches Some(x) && x.source is Timer && x.resume_pc == s.cpu.pc && x.resume_sp == s.cpu.dar[15]
            &&& t.cpu.pc == stub
            &&& t.timer_trampoline == stub
            &&& calls_with(t.bus, stub, 0x227C, task.task_ptr, task.tm_addr)
            &&& t.bus.get_long((s.cpu.dar[15] - 4) as u32) == s.cpu.pc
            &&& t.bus.get_word(kind) < 0x8000
            &&& t.bus.get_word(kind) % 0x8000 == s.bus.get_word(kind) % 0x8000
            &&& t.disp.timer_tasks.len() == s.disp.timer_tasks.len()
            &&& !t.disp.timer_tasks[i].active
            &&& t.disp.timer_tasks[i].last_fired_tick == Some((now / 1_000_000) as u32)
            &&& t.disp.timer_tasks[i].task_ptr == task.task_ptr
            &&& forall|j: int|
                0 <= j < s.disp.timer_tasks.len() && j != i ==> #[trigger] t.disp.timer_tasks[j]
                    == s.disp.timer_tasks[j]
            &&& t.disp.timer_current_subtick == now
            &&& t.cpu.sr == s.cpu.sr
        }),
{
    broadcast use {group_memory_reads, group_memory_bytes};

    reveal(RunnerView::timer_fired);
    reveal(RunnerView::interrupted);
    reveal(timer_stub);
    lemma_earliest_is(s.disp.timer_tasks, now, s.disp.timer_tasks.len(), i);
    let w = s.bus.get_word((s.disp.timer_tasks[i].task_ptr + 4) as u32);
    assert(w & 0x7FFF < 0x8000 && (w & 0x7FFF) % 0x8000 == w % 0x8000) by (bit_vector);
}

/// The time that timers see begins a tick at a million times the tick count, and grows
/// with the share of the tick's instructions that have run, to the last whole millionth.
pub proof fn lemma_timer_time(s: RunnerView)
    requires
        1 <= s.instructions_per_tick <= 0x7fff_ffff,
        0 < s.tick_budget <= s.instructions_per_tick,
    ensures
        ({
            let whole = s.instructions_per_tick as int;
            let run = whole - s.tick_budget;
            let share = s.timer_now() - s.bus.get_long(0x16A) * 1_000_000;
            &&& 0 <= share < 1_000_000
            &&& share * whole <= run * 1_000_000
            &&& run * 1_000_000 < (share + 1) * whole
        }),
{
    let whole = s.instructions_per_tick as int;
    let run = whole - s.tick_budget;
    let share = run * 1_000_000 / whole;
    assert(0 <= share < 1_000_000 && share * whole <= run * 1_000_000 && run * 1_000_000 < (share + 1) * whole) by (nonlinear_arith)
        requires
            0 <= run < whole,
            share == run * 1_000_000 / whole,
    ;
    assert(0 * whole == 0);
}

/// A lone timer task is called in a tick exactly when its time is not behind the start of
/// that tick.
pub proof fn lemma_tick_fires_timer(s: RunnerView, task: TimerTask)
    requires
        keeps_to_itself(s),
        s.active is None,
        s.disp.vbl_tasks.len() == 0,
        s.disp.timer_tasks == seq![task],
        task.active,
        task.last_fired_tick is None,
        task.tm_addr != 0,
        s.bus.get_long(0x8EE) == 0 || s.bus.get_long(0x8EE) == 0x60,
        s.bus.get_long(0x16A) < u32::MAX,
    ensures
        ({
            let tick = s.bus.get_long(0x16A) + 1;
            let t = s.ticked();
            &&& t.active is Some <==> task.fire_at_subtick <= tick * 1_000_000
            &&& t.active matches Some(x) ==> x.source is Timer && x.resume_pc == s.cpu.pc && x.resume_sp == s.cpu.dar[15]
            &&& t.disp.timer_tasks.len() == 1
            &&& t.disp.timer_tasks[0].active <==> task.fire_at_subtick > tick * 1_000_000
        }),
{
    reveal(RunnerView::ticked);
    let a = s.clocked();
    assert(a.bus.get_long(0x8EE) == s.bus.get_long(0x8EE)) by {
        broadcast use group_memory_reads;

        reveal(with_clock);
    }
    assert(a.cursor_fired() == a) by {
        reveal(RunnerView::cursor_fired);
    }
    assert(a.vbl_fired() == a) by {
        reveal(RunnerView::vbl_fired);
    }
    let now = (s.tick().wrapping_add(1) * SUBTICKS_PER_TICK) as u64;
    reveal(RunnerView::timer_fired);
    reveal(RunnerView::interrupted);
    reveal_with_fuel(earliest_timer, 2);
}

/// The cursor task is called in every tick in which level one is open, unless there is
/// none or it is the one that does nothing: execution goes on in code that saves the
/// registers, calls it, restores them and returns.
pub proof fn lemma_cursor_task_is_called(s: RunnerView)
    requires
        s.active is None,
        s.cpu.dar.len() == 16,
        s.bus.mem.len() <= 0x1_0000_0000,
        4 <= s.cpu.dar[15] <= s.bus.mem.len(),
        ({
            let stub = if s.cursor_task_trampoline == 0 { s.bus.heap } else { s.cursor_task_trampoline };
            &&& s.cursor_task_trampoline == 0 ==> 0 < stub && s.bus.has_room(16)
            &&& s.cursor_task_trampoline != 0 ==> has_plain_code(s.bus, stub)
            &&& stub + 16 <= s.bus.mem.len()
            &&& apart(stub, 16, (s.cpu.dar[15] - 4) as u32, 4)
        }),
    ensures
        ({
            let t = s.cursor_fired();
            let routine = s.bus.get_long(0x8EE);
            let stub = if s.cursor_task_trampoline == 0 { s.bus.heap } else { s.cursor_task_trampoline };
            let due = routine != 0 && routine != 0x60 && s.cpu.sr / 256 % 8 == 0;
            &&& !due ==> t == s
            &&& due ==> {
                &&& t.active matches Some(x) && x.source is CursorTask && x.resume_pc == s.cpu.pc
                &&& t.cpu.pc == stub
                &&& t.cursor_task_trampoline == stub
                &&& has_plain_code(t.bus, stub)
                &&& t.bus.get_long((stub + 6) as u32) == routine
                &&& t.bus.get_long((s.cpu.dar[15] - 4) as u32) == s.cpu.pc
            }
        }),
{
    broadcast use {group_memory_reads, group_memory_bytes};

    reveal(RunnerView::cursor_fired);
    reveal(RunnerView::interrupted);
    reveal(cursor_stub);
    lemma_level_one(s.cpu.sr);
}

/// At `t` stands code that saves D0-D3/A0-A3, calls the routine whose address is behind
/// its sixth byte, restores the registers and returns.
pub open spec fn has_plain_code(b: BusView, t: u32) -> bool {
    &&& b.get_word(t) == 0x48E7
    &&& b.get_word((t + 2) as u32) == 0xF0F0
    &&& b.get_word((t + 4) as u32) == 0x4EB9
    &&& b.get_word((t + 10) as u32) == 0x4CDF
    &&& b.get_word((t + 12) as u32) == 0x0F0F
    &&& b.get_word((t + 14) as u32) == 0x4E75
}

} // verus!

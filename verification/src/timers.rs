use vstd::prelude::*;

use crate::events::{TimerTask, VblTask};
use crate::globals::TICKS;
use crate::interrupts::level_one_open;
use crate::memory::{group_memory_lengths, BusView};
use crate::runner::{ActiveInterruptCallbackSource, FixtureRunner, RunnerView};
use crate::stubs::{ready_timer_stub, ready_vbl_stub, timer_stub, vbl_stub};
use crate::trap::DispView;

verus! {

broadcast use {group_memory_lengths, crate::trap::group_dispatcher_fields};

/// Millionths of a tick in a tick.
pub const SUBTICKS_PER_TICK: u64 = 1_000_000;

/// Counts down the retrace tasks from position `i` on, and finds the first that
/// becomes due; tasks behind it keep their count.
pub open spec fn vbl_countdown(b: BusView, tasks: Seq<VblTask>, i: int) -> (BusView, Option<u32>)
    decreases tasks.len() - i,
{
    if i < 0 || i >= tasks.len() {
        (b, None)
    } else {
        let at = tasks[i].task_ptr.wrapping_add(10);
        let count = b.get_word(at) as i16;
        if count <= 0 {
            vbl_countdown(b, tasks, i + 1)
        } else {
            let counted = b.word(at, (count - 1) as u16);
            if count == 1 {
                (counted, Some(tasks[i].task_ptr))
            } else {
                vbl_countdown(counted, tasks, i + 1)
            }
        }
    }
}

/// A timer task that may fire now: active, its time has come, and it has not
/// fired in this tick.
pub open spec fn timer_ready(task: TimerTask, now: u64) -> bool {
    &&& task.active
    &&& now >= task.fire_at_subtick
    &&& task.last_fired_tick != Some((now / SUBTICKS_PER_TICK) as u32)
}

/// Among the first `n` tasks, the ready one with the earliest time; the first
/// such where several share it.
pub open spec fn earliest_timer(tasks: Seq<TimerTask>, now: u64, n: nat) -> Option<int>
    decreases n,
{
    if n == 0 {
        None
    } else {
        let before = earliest_timer(tasks, now, (n - 1) as nat);
        let i = n - 1;
        if !timer_ready(tasks[i], now) {
            before
        } else {
            match before {
                Some(k) => if tasks[i].fire_at_subtick < tasks[k].fire_at_subtick { Some(i) } else { before },
                None => Some(i),
            }
        }
    }
}

/// The position that `earliest_timer` gives is one of the first `n`.
pub proof fn lemma_earliest_timer_in_range(tasks: Seq<TimerTask>, now: u64, n: nat)
    requires
        n <= tasks.len(),
    ensures
        earliest_timer(tasks, now, n) matches Some(k) ==> 0 <= k < n && timer_ready(tasks[k], now),
    decreases n,
{
    if n > 0 {
        lemma_earliest_timer_in_range(tasks, now, (n - 1) as nat);
    }
}

/// The task that fires is ready, and no ready task has an earlier time.
pub proof fn lemma_earliest_timer_is_minimal(tasks: Seq<TimerTask>, now: u64, n: nat, j: int)
    requires
        n <= tasks.len(),
        0 <= j < n,
        timer_ready(tasks[j], now),
    ensures
        earliest_timer(tasks, now, n) matches Some(k) && timer_ready(tasks[k], now) && tasks[k].fire_at_subtick
            <= tasks[j].fire_at_subtick,
    decreases n,
{
    lemma_earliest_timer_in_range(tasks, now, (n - 1) as nat);
    if j < n - 1 {
        lemma_earliest_timer_is_minimal(tasks, now, (n - 1) as nat, j);
    }
}

impl RunnerView {
    /// The time now, in millionths of a tick: ticks, and the share of the present
    /// tick whose instructions have run.
    pub open spec fn timer_now(self) -> u64 {
        let base = self.tick() * SUBTICKS_PER_TICK;
        let whole = self.instructions_per_tick as int;
        if self.tick_budget <= 0 {
            base as u64
        } else if self.tick_budget >= whole {
            base as u64
        } else {
            (base + (whole - self.tick_budget) * SUBTICKS_PER_TICK / whole) as u64
        }
    }

    /// The state after the retrace tasks had their chance to run: each counts
    /// down, and the first that becomes due is called with its record in A0.
    #[verifier::opaque]
    pub open spec fn vbl_fired(self) -> RunnerView {
        if self.active is Some || !level_one_open(self.cpu.sr) {
            self
        } else {
            let (b, due) = vbl_countdown(self.bus, self.disp.vbl_tasks, 0);
            let counted = RunnerView { bus: b, ..self };
            match due {
                Some(task) => {
                    let addr = b.get_long(task.wrapping_add(6));
                    if addr == 0 {
                        counted
                    } else {
                        let (bus, t) = vbl_stub(b, self.vbl_trampoline, task, addr);
                        RunnerView { bus, vbl_trampoline: t, ..counted }.interrupted(
                            ActiveInterruptCallbackSource::Vbl,
                            t,
                        )
                    }
                },
                None => counted,
            }
        }
    }

    /// The state after the timer tasks had their chance to run at time `now`: at
    /// most one fires, it is inactive from then on, its record says so, and it
    /// is called with its record in A1.
    #[verifier::opaque]
    pub open spec fn timer_fired(self, now: u64) -> RunnerView {
        if self.active is Some {
            self
        } else {
            let tasks = self.disp.timer_tasks;
            let noted = RunnerView { disp: DispView { timer_current_subtick: now, ..self.disp }, ..self };
            match earliest_timer(tasks, now, tasks.len()) {
                None => noted,
                Some(k) => {
                    let task = tasks[k];
                    let fired = TimerTask {
                        active: false,
                        last_fired_tick: Some((now / SUBTICKS_PER_TICK) as u32),
                        ..task
                    };
                    let at = task.task_ptr.wrapping_add(4);
                    let marked = RunnerView {
                        disp: DispView { timer_tasks: tasks.update(k, fired), ..noted.disp },
                        bus: self.bus.word(at, self.bus.get_word(at) & 0x7FFF),
                        ..noted
                    };
                    if task.tm_addr == 0 {
                        marked
                    } else {
                        let (bus, t) = timer_stub(marked.bus, self.timer_trampoline, task.task_ptr, task.tm_addr);
                        RunnerView { bus, timer_trampoline: t, ..marked }.interrupted(
                            ActiveInterruptCallbackSource::Timer,
                            t,
                        )
                    }
                },
            }
        }
    }
}

impl FixtureRunner {
    /// Counts down the retrace tasks and calls the first that becomes due.
    pub fn fire_vbl_tasks(&mut self)
        requires
            old(self).wf(),
        ensures
            final(self)@ == old(self)@.vbl_fired(),
            final(self).wf(),
    {
        proof {
            reveal(RunnerView::vbl_fired);
        }
        if self.active_interrupt_callback.is_some() || self.cpu.get_sr() & 0x0700 >= 0x0100 {
            return;
        }
        let mut due: Option<u32> = None;
        let mut i: usize = 0;
        while i < self.dispatcher.vbl_tasks.len() && due.is_none()
            invariant
                i <= self.dispatcher.vbl_tasks@.len(),
                self.wf(),
                self@ == (RunnerView { bus: self@.bus, ..old(self)@ }),
                ({
                    let whole = vbl_countdown(old(self)@.bus, old(self)@.disp.vbl_tasks, 0);
                    match due {
                        Some(t) => whole == (self@.bus, Some(t)),
                        None => whole == vbl_countdown(self@.bus, self@.disp.vbl_tasks, i as int),
                    }
                }),
            decreases self.dispatcher.vbl_tasks.len() - i,
        {
            let task: VblTask = self.dispatcher.vbl_tasks[i];
            let at: u32 = task.task_ptr.wrapping_add(10);
            let count: i16 = self.bus.read_word(at) as i16;
            if count > 0 {
                let new_count: i16 = count - 1;
                self.bus.write_word(at, new_count as u16);
                if new_count == 0 {
                    due = Some(task.task_ptr);
                }
            }
            i += 1;
        }
        let task_ptr: u32 = match due {
            Some(t) => t,
            None => return,
        };
        let callback_addr: u32 = self.bus.read_long(task_ptr.wrapping_add(6));
        if callback_addr == 0 {
            return;
        }
        let t: u32 = ready_vbl_stub(&mut self.bus, self.vbl_trampoline, task_ptr, callback_addr);
        self.vbl_trampoline = t;
        self.inject_interrupt_callback(ActiveInterruptCallbackSource::Vbl, t);
    }

    /// The time now, in millionths of a tick.
    pub fn current_timer_subtick(&self) -> (r: u64)
        requires
            self.wf(),
        ensures
            r == self@.timer_now(),
    {
        let base: u64 = self.bus.read_long(TICKS) as u64 * SUBTICKS_PER_TICK;
        let whole: u64 = self.instructions_per_tick as u64;
        if self.tick_budget <= 0 || self.tick_budget as i64 >= whole as i64 {
            return base;
        }
        let elapsed: u64 = whole - self.tick_budget as u64;
        proof {
            assert(elapsed * SUBTICKS_PER_TICK / whole as int <= SUBTICKS_PER_TICK) by (nonlinear_arith)
                requires
                    0 <= elapsed <= whole,
                    whole >= 1,
                    SUBTICKS_PER_TICK == 1_000_000,
            ;
            assert(elapsed * SUBTICKS_PER_TICK / whole as int >= 0) by (nonlinear_arith)
                requires
                    0 <= elapsed,
                    whole >= 1,
                    SUBTICKS_PER_TICK == 1_000_000,
            ;
        }
        base + elapsed * SUBTICKS_PER_TICK / whole
    }

    fn find_timer(tasks: &Vec<TimerTask>, now: u64) -> (r: Option<usize>)
        ensures
            r is None ==> earliest_timer(tasks@, now, tasks@.len()) is None,
            r matches Some(k) ==> k < tasks@.len() && earliest_timer(tasks@, now, tasks@.len()) == Some(k as int),
    {
        let tick: u32 = (now / SUBTICKS_PER_TICK) as u32;
        let mut best: Option<usize> = None;
        let mut i: usize = 0;
        while i < tasks.len()
            invariant
                i <= tasks.len(),
                tick == (now / SUBTICKS_PER_TICK) as u32,
                best is None <==> earliest_timer(tasks@, now, i as nat) is None,
                best matches Some(k) ==> k < i && earliest_timer(tasks@, now, i as nat) == Some(k as int),
            decreases tasks.len() - i,
        {
            let task: TimerTask = tasks[i];
            let fired_now: bool = match task.last_fired_tick {
                Some(t) => t == tick,
                None => false,
            };
            if task.active && now >= task.fire_at_subtick && !fired_now {
                best = match best {
                    Some(k) => if task.fire_at_subtick < tasks[k].fire_at_subtick { Some(i) } else { Some(k) },
                    None => Some(i),
                };
            }
            i += 1;
        }
        best
    }

    /// Fires at most one timer task at the time `current_subtick`.
    pub fn fire_timer_tasks_at(&mut self, current_subtick: u64)
        requires
            old(self).wf(),
        ensures
            final(self)@ == old(self)@.timer_fired(current_subtick),
            final(self).wf(),
    {
        proof {
            reveal(RunnerView::timer_fired);
        }
        if self.active_interrupt_callback.is_some() {
            return;
        }
        let found: Option<usize> = Self::find_timer(&self.dispatcher.timer_tasks, current_subtick);
        self.dispatcher.note_timer_time(current_subtick);
        let k: usize = match found {
            Some(k) => k,
            None => return,
        };
        let task: TimerTask = self.dispatcher.mark_timer_fired(k, (current_subtick / SUBTICKS_PER_TICK) as u32);
        let at: u32 = task.task_ptr.wrapping_add(4);
        let q_type: u16 = self.bus.read_word(at);
        self.bus.write_word(at, q_type & 0x7FFF);
        if task.tm_addr == 0 {
            return;
        }
        let t: u32 = ready_timer_stub(&mut self.bus, self.timer_trampoline, task.task_ptr, task.tm_addr);
        self.timer_trampoline = t;
        self.inject_interrupt_callback(ActiveInterruptCallbackSource::Timer, t);
    }

    /// Fires at most one timer task at the start of a tick.
    pub fn fire_timer_tasks(&mut self, current_tick: u32)
        requires
            old(self).wf(),
        ensures
            final(self)@ == old(self)@.timer_fired((current_tick * SUBTICKS_PER_TICK) as u64),
            final(self).wf(),
    {
        self.fire_timer_tasks_at(current_tick as u64 * SUBTICKS_PER_TICK);
    }
}

} // verus!

use vstd::prelude::*;

use crate::cpu::{CpuExit, Register};
use crate::diagnostics::TraceEntry;
use crate::interrupts::{is_sound_interrupt_source, sound_source};
use crate::keeps::{
    hushed, kept_apart, lemma_accounted, lemma_audio_finished, lemma_callback_left, lemma_precharged, lemma_resumes_idle, lemma_traps,
    lemma_traps_bound, lemma_waits_served, lemma_work_called, sound_queue,
};
use crate::memory::group_memory_lengths;
use crate::policy::BATCH_CHUNK;
use crate::runner::{FixtureRunner, RunnerView};
use crate::slice::{executed, Flow, SliceOrder};
use crate::trap::{DispView, TrapDispatcher};

verus! {

broadcast use {group_memory_lengths, crate::trap::group_dispatcher_fields};

/// The most instructions that a slice runs. A trap counts as a few more, so that all of
/// them can be counted.
pub const MOST_STEPS: usize = usize::MAX - 8;

/// `n` instructions, as far as they can be counted.
pub open spec fn countable(n: usize) -> usize {
    if n <= MOST_STEPS { n } else { MOST_STEPS }
}

/// Where a slice of execution stands.
#[derive(Clone, Copy)]
pub struct SliceState {
    /// Instructions executed.
    pub count: usize,
    /// A sound callback was called in this slice.
    pub called: bool,
    /// The tick cap was reached.
    pub capped: bool,
}

/// A machine within a slice of execution.
pub struct SliceView {
    pub m: RunnerView,
    pub count: int,
    pub called: bool,
    pub capped: bool,
}

impl SliceView {
    /// The slice is not over.
    pub open spec fn goes_on(self, o: SliceOrder) -> bool {
        self.count < o.max_steps && !self.m.halted && !self.capped
    }

    /// The Toolbox knows how many instructions have run.
    pub open spec fn synced(self) -> SliceView {
        SliceView { m: self.m.synced(), ..self }
    }

    /// How many more instructions the slice has room for.
    pub open spec fn room(self, o: SliceOrder) -> int {
        if self.capped || self.count >= o.max_steps {
            0
        } else {
            o.max_steps - self.count
        }
    }
}

impl RunnerView {
    /// The Toolbox knows how many instructions have run.
    pub open spec fn synced(self) -> RunnerView {
        RunnerView { disp: DispView { instruction_count: self.total_instructions, ..self.disp }, ..self }
    }

    /// The state when a turn is ready to run instructions: interrupt work, sleeps
    /// and delays were served, and a callback that has returned was left. The
    /// number is where the program counter stood.
    #[verifier::opaque]
    pub open spec fn turn_opened(self, o: SliceOrder, called: bool) -> (RunnerView, Flow, bool, u32) {
        let (a, first, now_called) = self.work_called(o, called);
        if !(first is Run) {
            (a, first, now_called, 0)
        } else {
            let (b, second) = a.waits_served(o);
            if !(second is Run) {
                (b, second, now_called, 0)
            } else {
                let (c, third) = b.callback_left(o);
                (c, third, now_called, b.cpu.pc)
            }
        }
    }

    /// The instruction that a turn finds at the program counter, if interrupt work and
    /// waits let it come that far.
    #[verifier::opaque]
    pub open spec fn turn_entry(self, o: SliceOrder, called: bool) -> Option<TraceEntry> {
        let (a, first, _) = self.work_called(o, called);
        let (b, second) = a.waits_served(o);
        if first is Run && second is Run {
            Some(b.next_instruction())
        } else {
            None
        }
    }

    /// `t` may follow when a parked loop had its chance to sleep on; `stays` says
    /// that it does.
    pub open spec fn idle_taken(self, t: RunnerView, o: SliceOrder, stays: bool) -> bool {
        if o.sound_work_only {
            !stays && t == self
        } else {
            self.may_resume_idle(t, o.tick_cap, stays)
        }
    }
}

/// The slice `c` after a trap that led to `u`, counted `k` more instructions, and
/// goes on as `f` says.
pub open spec fn behind_trap(c: SliceView, u: RunnerView, k: nat, capped: bool, f: Flow) -> (SliceView, Flow) {
    let d = SliceView { m: u, count: c.count + k, capped: c.capped || capped, ..c };
    if f is Run {
        (d.synced(), Flow::Again)
    } else {
        (d, f)
    }
}

/// `t` may follow when trap `opcode` ended a run of instructions at `c`.
#[verifier::opaque]
pub open spec fn trap_taken(c: SliceView, t: SliceView, o: SliceOrder, opcode: u16, flow: Flow) -> bool {
    exists|u: RunnerView, k: nat, capped: bool, f: Flow|
        {
            &&& #[trigger] c.m.traps(u, o, opcode, c.room(o), k, capped, f)
            &&& k <= 4 || k <= c.room(o)
            &&& (t, flow) == behind_trap(c, u, k, capped, f)
        }
}

/// The slice after a run of `n` instructions that led to `s` was counted.
pub open spec fn batch_counted(s: SliceView, o: SliceOrder, n: u32, exit: CpuExit, ahead: bool) -> SliceView {
    let (m, hit) = s.m.accounted(o, n, exit, ahead);
    SliceView { m, count: s.count + executed(n, exit), capped: s.capped || hit, ..s }
}

/// `t` may follow when a run of `n` instructions that led to `s` ended with
/// `exit`.
#[verifier::opaque]
pub open spec fn batch_ended(
    s: SliceView,
    t: SliceView,
    o: SliceOrder,
    n: u32,
    exit: CpuExit,
    ahead: bool,
    flow: Flow,
) -> bool {
    let c = batch_counted(s, o, n, exit, ahead);
    match exit {
        CpuExit::BudgetExhausted => t == c.synced() && flow is Again,
        CpuExit::WatchedPc(_) => t == c.synced() && flow is Again,
        CpuExit::Fline(_) => t == c.synced() && flow is Again,
        CpuExit::Aline(opcode) => trap_taken(c, t, o, opcode, flow),
        _ => t == (SliceView { m: c.m.halted_at(c.m.cpu.pc), ..c }) && flow is Halt,
    }
}

/// `t` may follow when a turn runs instructions from `s` on, the program counter
/// having stood at `pc`.
#[verifier::opaque]
pub open spec fn turn_ran(s: SliceView, t: SliceView, o: SliceOrder, pc: u32, flow: Flow) -> bool {
    if s.m.bad_pc(pc) {
        t == (SliceView { m: s.m.halted_at(pc), ..s }) && flow is Halt
    } else {
        let (b, ahead, over) = s.m.precharged(o);
        if over {
            t == (SliceView { m: b, ..s }) && flow is Leave
        } else {
            let max = b.batch_size(o, s.count, s.m.charging(o));
            exists|u: RunnerView, n: u32, exit: CpuExit|
                {
                    &&& 1 <= max <= BATCH_CHUNK
                    &&& #[trigger] b.ran(u, max, n, exit)
                    &&& batch_ended(SliceView { m: u, ..s }, t, o, n, exit, ahead, flow)
                }
        }
    }
}

/// `t` may follow when a slice at `s` has had one more turn, and the slice goes
/// on as `flow` says.
#[verifier::opaque]
pub open spec fn turned(s: SliceView, t: SliceView, o: SliceOrder, flow: Flow) -> bool {
    let (a, first, called, pc) = s.m.turn_opened(o, s.called);
    if !(first is Run) {
        t == (SliceView { m: a, called, ..s }) && flow == first
    } else {
        exists|b: RunnerView, stays: bool|
            {
                let u = SliceView { m: b, called, ..s };
                &&& #[trigger] a.idle_taken(b, o, stays)
                &&& if stays {
                    t == u && flow is Leave
                } else {
                    turn_ran(u, t, o, pc, flow)
                }
            }
    }
}

/// The states at the beginning of each turn of a slice, from `s` on.
pub open spec fn turns(path: Seq<SliceView>, s: SliceView, o: SliceOrder) -> bool {
    &&& path.len() >= 1
    &&& path[0] == s
    &&& forall|i: int|
        0 <= i < path.len() - 1 ==> (#[trigger] path[i]).goes_on(o) && turned(path[i], path[i + 1], o, Flow::Again)
}

impl RunnerView {
    /// The state after the host's frame has ended, if it ends with the slice.
    pub open spec fn framed(self, o: SliceOrder, called: bool) -> RunnerView {
        if o.finish_frame {
            self.frame_finished(o.audio_samples as nat, called)
        } else {
            self
        }
    }

    /// The state after a host frame has ended: the menu bar, the window frames and the
    /// modal dialog are drawn again, and the sound work is done.
    #[verifier::opaque]
    pub open spec fn frame_finished(self, n: nat, called: bool) -> RunnerView {
        RunnerView { bus: self.disp.redrawn(self.bus), ..self }.audio_finished(n, called)
    }

    /// The order of a slice for this machine: a stopped clock is its tick cap, and no more
    /// instructions are run than can be counted.
    pub open spec fn order(
        self,
        max_steps: usize,
        tick_cap: Option<u32>,
        audio_samples: usize,
        yield_for_ui: bool,
        sound_work_only: bool,
        finish_frame: bool,
    ) -> SliceOrder {
        SliceOrder {
            max_steps: countable(max_steps),
            host_tick: tick_cap,
            tick_cap: match (self.frozen_ticks, tick_cap) {
                (Some(frozen), Some(_)) => Some(frozen),
                _ => tick_cap,
            },
            audio_samples,
            yield_for_ui,
            sound_work_only,
            finish_frame,
            single: false,
        }
    }

    /// This machine at the beginning of a slice.
    pub open spec fn slice(self) -> SliceView {
        SliceView {
            m: self.unobserved().synced(),
            count: 0,
            called: self.active matches Some(a) && sound_source(a.source),
            capped: false,
        }
    }

    /// The state after a slice that ended in `s` without a halt or a yield.
    pub open spec fn left(s: SliceView, o: SliceOrder) -> RunnerView {
        s.m.unobserved().framed(o, s.called || o.sound_work_only)
    }

    /// This machine, after the turns of `path`, may end up as `t` with the result
    /// `r`: the instructions executed, and whether it still runs.
    pub open spec fn slice_ends(path: Seq<SliceView>, o: SliceOrder, t: RunnerView, r: (usize, bool)) -> bool {
        let s = path.last();
        if !s.goes_on(o) {
            &&& t == RunnerView::left(s, o)
            &&& r == (s.count as usize, !s.m.halted)
        } else {
            exists|u: SliceView, flow: Flow|
                {
                    &&& #[trigger] turned(s, u, o, flow)
                    &&& r.0 == u.count
                    &&& match flow {
                        Flow::Leave => t == RunnerView::left(u, o) && r.1,
                        Flow::Halt => t == u.m && !r.1,
                        Flow::Yield => t == u.m.framed(o, u.called) && r.1,
                        _ => false,
                    }
                }
        }
    }
}

impl RunnerView {
    /// A slice of execution from this state on may end as `t` with the result `r`:
    /// there are turns that lead to it.
    pub open spec fn slice_may_end(self, o: SliceOrder, t: RunnerView, r: (usize, bool)) -> bool {
        exists|path: Seq<SliceView>| #[trigger] turns(path, self.slice(), o) && RunnerView::slice_ends(path, o, t, r)
    }
}

/// What a turn from `s` to `t` keeps and counts.
pub open spec fn turn_counts(s: SliceView, t: SliceView, o: SliceOrder, flow: Flow) -> bool {
    &&& t.m.total_instructions == s.m.total_instructions.wrapping_add((t.count - s.count) as u64)
    &&& t.m.instructions_per_tick == s.m.instructions_per_tick
    &&& t.m.halted == (flow is Halt)
    &&& flow is Halt ==> t.m.recorded()
    &&& hushed(s.m, t.m)
    &&& s.count <= t.count <= s.count + BATCH_CHUNK + 70
    &&& t.count <= o.max_steps + 5
    &&& !(flow is Run)
}

/// A turn that asks for another one has executed instructions, or has come nearer
/// to it: it has called a queued draw procedure, or begun a callback, or dropped
/// sound work.
pub open spec fn turn_advances(s: SliceView, t: SliceView) -> bool {
    let q = s.m.disp.modeless_dialog_draw_proc_queue.len();
    let r = t.m.disp.modeless_dialog_draw_proc_queue.len();
    ||| t.count > s.count
    ||| t.count == s.count && r < q
    ||| t.count == s.count && r == q && s.m.active is None && t.m.active is Some
    ||| t.count == s.count && r == q && s.m.active is None && t.m.active is None && sound_queue(t.m) < sound_queue(s.m)
}

proof fn lemma_batch_ended(s: SliceView, t: SliceView, o: SliceOrder, max: int, n: u32, exit: CpuExit, ahead: bool, flow: Flow)
    requires
        batch_ended(s, t, o, n, exit, ahead, flow),
        !s.m.halted,
        1 <= s.m.instructions_per_tick <= 0x7fff_ffff,
        1 <= max <= BATCH_CHUNK,
        n <= max,
        s.count + max <= o.max_steps,
        exit is BudgetExhausted ==> n == max,
        exit is WatchedPc ==> n >= 1,
    ensures
        turn_counts(s, t, o, flow),
        flow is Again ==> t.count > s.count,
{
    reveal(batch_ended);
    lemma_accounted(s.m, o, n, exit, ahead);
    let c = batch_counted(s, o, n, exit, ahead);
    if let CpuExit::Aline(opcode) = exit {
        reveal(trap_taken);
        let (u, k, capped, f) = choose|u: RunnerView, k: nat, capped: bool, f: Flow|
            {
                &&& #[trigger] c.m.traps(u, o, opcode, c.room(o), k, capped, f)
                &&& k <= 4 || k <= c.room(o)
                &&& (t, flow) == behind_trap(c, u, k, capped, f)
            };
        lemma_traps(c.m, u, o, opcode, c.room(o), k, capped, f);
        lemma_traps_bound(c.m, u, o, opcode, c.room(o), k, capped, f);
    }
}

proof fn lemma_turn_ran(s: SliceView, t: SliceView, o: SliceOrder, pc: u32, flow: Flow)
    requires
        turn_ran(s, t, o, pc, flow),
        s.goes_on(o),
        1 <= s.m.instructions_per_tick <= 0x7fff_ffff,
    ensures
        turn_counts(s, t, o, flow),
        flow is Again ==> t.count > s.count,
{
    reveal(turn_ran);
    if !s.m.bad_pc(pc) {
        lemma_precharged(s.m, o);
        let (b, ahead, over) = s.m.precharged(o);
        if !over {
            let max = b.batch_size(o, s.count, s.m.charging(o));
            let (u, n, exit) = choose|u: RunnerView, n: u32, exit: CpuExit|
                {
                    &&& 1 <= max <= BATCH_CHUNK
                    &&& #[trigger] b.ran(u, max, n, exit)
                    &&& batch_ended(SliceView { m: u, ..s }, t, o, n, exit, ahead, flow)
                };
            lemma_batch_ended(SliceView { m: u, ..s }, t, o, max, n, exit, ahead, flow);
        }
    }
}

/// Every turn counts the instructions that it executes, halts the machine exactly
/// when it says so, and brings the slice nearer to its end.
pub proof fn lemma_turned(s: SliceView, t: SliceView, o: SliceOrder, flow: Flow)
    requires
        turned(s, t, o, flow),
        s.goes_on(o),
        1 <= s.m.instructions_per_tick <= 0x7fff_ffff,
    ensures
        turn_counts(s, t, o, flow),
        flow is Again ==> turn_advances(s, t),
{
    reveal(turned);
    reveal(RunnerView::turn_opened);
    lemma_work_called(s.m, o, s.called);
    let (a, first, called) = s.m.work_called(o, s.called);
    lemma_waits_served(a, o);
    let (b, second) = a.waits_served(o);
    lemma_callback_left(b, o);
    let (c, third) = b.callback_left(o);
    if first is Run && second is Run && third is Run {
        let (d, stays) = choose|d: RunnerView, stays: bool|
            {
                let u = SliceView { m: d, called, ..s };
                &&& #[trigger] c.idle_taken(d, o, stays)
                &&& if stays {
                    t == u && flow is Leave
                } else {
                    turn_ran(u, t, o, b.cpu.pc, flow)
                }
            };
        if !o.sound_work_only {
            lemma_resumes_idle(c, d, o.tick_cap, stays);
        }
        if !stays {
            lemma_turn_ran(SliceView { m: d, called, ..s }, t, o, b.cpu.pc, flow);
        }
    }
}

impl TrapDispatcher {
    /// Notes how many instructions have run.
    fn set_instruction_count(&mut self, n: u64)
        ensures
            final(self)@ == (DispView { instruction_count: n, ..old(self)@ }),
            old(self).wf() ==> final(self).wf(),
    {
        proof {
            reveal(TrapDispatcher::view);
        }
        self.instruction_count = n;
    }
}

impl FixtureRunner {
    /// This machine within a slice.
    pub open spec fn at(&self, st: SliceState) -> SliceView {
        SliceView { m: self@, count: st.count as int, called: st.called, capped: st.capped }
    }

    fn sync_instruction_count(&mut self)
        requires
            old(self).wf(),
        ensures
            final(self)@ == old(self)@.synced(),
            final(self).wf(),
    {
        self.dispatcher.set_instruction_count(self.total_instructions);
    }

    pub(crate) fn open_turn(&mut self, o: &SliceOrder, called: bool) -> (r: (Flow, bool, u32, Option<TraceEntry>))
        requires
            old(self).wf(),
        ensures
            (final(self)@, r.0, r.1, r.2) == old(self)@.turn_opened(*o, called),
            r.3 == (if o.single {
                old(self)@.turn_entry(*o, called)
            } else {
                None
            }),
            final(self).wf(),
    {
        proof {
            reveal(RunnerView::turn_opened);
            reveal(RunnerView::turn_entry);
        }
        let (first, now_called): (Flow, bool) = self.call_work(o, called);
        if first != Flow::Run {
            return (first, now_called, 0, None);
        }
        let second: Flow = self.serve_waits(o);
        if second != Flow::Run {
            return (second, now_called, 0, None);
        }
        let pc: u32 = self.cpu.read_reg(Register::PC);
        let entry: Option<TraceEntry> = if o.single { Some(self.next_instruction()) } else { None };
        let third: Flow = self.leave_callback(o);
        (third, now_called, pc, entry)
    }

    pub(crate) fn take_idle(&mut self, o: &SliceOrder) -> (r: bool)
        requires
            old(self).wf(),
        ensures
            old(self)@.idle_taken(final(self)@, *o, r),
            final(self).wf(),
    {
        !o.sound_work_only && self.try_resume_proven_idle_cycle(o.tick_cap)
    }

    fn end_with_trap(&mut self, o: &SliceOrder, st: SliceState, opcode: u16) -> (r: (SliceState, Flow))
        requires
            old(self).wf(),
            st.count <= o.max_steps + 1,
            o.max_steps <= MOST_STEPS,
        ensures
            trap_taken(old(self).at(st), final(self).at(r.0), *o, opcode, r.1),
            final(self).wf(),
    {
        let ghost c = self.at(st);
        let room: usize = if st.capped || st.count >= o.max_steps { 0 } else { o.max_steps - st.count };
        let (more, capped, f): (u32, bool, Flow) = self.take_trap(o, opcode, room);
        let ghost u = self@;
        let next: SliceState = SliceState {
            count: st.count + more as usize,
            called: st.called,
            capped: st.capped || capped,
        };
        let mut flow: Flow = f;
        if f == Flow::Run {
            self.sync_instruction_count();
            flow = Flow::Again;
        }
        proof {
            reveal(trap_taken);
            assert(c.m.traps(u, *o, opcode, c.room(*o), more as nat, capped, f));
            assert((self.at(next), flow) == behind_trap(c, u, more as nat, capped, f));
        }
        (next, flow)
    }

    fn count_batch(&mut self, o: &SliceOrder, st: SliceState, n: u32, exit: CpuExit, ahead: bool) -> (r: SliceState)
        requires
            old(self).wf(),
            n <= BATCH_CHUNK,
            st.count + n <= o.max_steps,
            o.max_steps <= MOST_STEPS,
        ensures
            final(self).at(r) == batch_counted(old(self).at(st), *o, n, exit, ahead),
            final(self).wf(),
    {
        let k: u32 = match exit {
            CpuExit::Aline(_) => n + 1,
            CpuExit::Fline(_) => n + 1,
            _ => n,
        };
        let hit: bool = self.account(o, n, exit, ahead);
        SliceState { count: st.count + k as usize, called: st.called, capped: st.capped || hit }
    }

    fn end_batch(&mut self, o: &SliceOrder, st: SliceState, n: u32, exit: CpuExit, ahead: bool) -> (r: (SliceState, Flow))
        requires
            old(self).wf(),
            n <= BATCH_CHUNK,
            st.count + n <= o.max_steps,
            o.max_steps <= MOST_STEPS,
        ensures
            batch_ended(old(self).at(st), final(self).at(r.0), *o, n, exit, ahead, r.1),
            final(self).wf(),
    {
        proof {
            reveal(batch_ended);
        }
        let counted: SliceState = self.count_batch(o, st, n, exit, ahead);
        match exit {
            CpuExit::BudgetExhausted => {
                self.sync_instruction_count();
                (counted, Flow::Again)
            },
            CpuExit::WatchedPc(_) => {
                self.sync_instruction_count();
                (counted, Flow::Again)
            },
            CpuExit::Fline(_) => {
                self.sync_instruction_count();
                (counted, Flow::Again)
            },
            CpuExit::Aline(opcode) => self.end_with_trap(o, counted, opcode),
            _ => {
                let pc: u32 = self.cpu.read_reg(Register::PC);
                self.halt_at(pc);
                (counted, Flow::Halt)
            },
        }
    }

    pub(crate) fn run_turn(&mut self, o: &SliceOrder, st: SliceState, pc: u32) -> (r: (SliceState, Flow))
        requires
            old(self).wf(),
            st.count < o.max_steps,
            o.max_steps <= MOST_STEPS,
        ensures
            turn_ran(old(self).at(st), final(self).at(r.0), *o, pc, r.1),
            final(self).wf(),
    {
        proof {
            reveal(turn_ran);
        }
        if pc < crate::slice::LOWEST_CODE || pc >= self.bus.ram_size() {
            self.halt_at(pc);
            return (st, Flow::Halt);
        }
        let charging: bool = !o.sound_work_only && self.active_interrupt_callback.is_none() && self.frozen_ticks.is_none();
        let (ahead, over): (bool, bool) = self.precharge(o);
        if over {
            return (st, Flow::Leave);
        }
        let ghost b = self@;
        let (n, exit): (u32, CpuExit) = self.run_instructions(o, st.count, charging);
        let ghost u = self@;
        let ghost mid = self.at(st);
        let r: (SliceState, Flow) = self.end_batch(o, st, n, exit, ahead);
        proof {
            let s = old(self).at(st);
            let max = b.batch_size(*o, s.count, s.m.charging(*o));
            assert(b.ran(u, max, n, exit));
            assert(mid == (SliceView { m: u, ..s }));
            assert(batch_ended(SliceView { m: u, ..s }, self.at(r.0), *o, n, exit, ahead, r.1));
        }
        r
    }

    fn turn(&mut self, o: &SliceOrder, st: SliceState) -> (r: (SliceState, Flow))
        requires
            old(self).wf(),
            st.count < o.max_steps,
            o.max_steps <= MOST_STEPS,
        ensures
            turned(old(self).at(st), final(self).at(r.0), *o, r.1),
            final(self).wf(),
    {
        proof {
            reveal(turned);
        }
        let mut st: SliceState = st;
        let (first, called, pc, _): (Flow, bool, u32, Option<TraceEntry>) = self.open_turn(o, st.called);
        st.called = called;
        if first != Flow::Run {
            return (st, first);
        }
        let ghost a = self@;
        let stays: bool = self.take_idle(o);
        assert(a.idle_taken(self@, *o, stays));
        if stays {
            return (st, Flow::Leave);
        }
        self.run_turn(o, st, pc)
    }

    pub(crate) fn end_frame(&mut self, o: &SliceOrder, called: bool)
        requires
            old(self).wf(),
        ensures
            final(self)@ == old(self)@.framed(*o, called),
            kept_apart(old(self)@, final(self)@),
            final(self).wf(),
    {
        if o.finish_frame {
            self.finish_host_frame(o.audio_samples, called);
        }
    }

    /// Ends a host frame: draws the menu bar, the window frames and the modal dialog again,
    /// and does the sound work.
    pub fn finish_host_frame(&mut self, audio_samples: usize, sound_interrupt_dispatched: bool)
        requires
            old(self).wf(),
        ensures
            final(self)@ == old(self)@.frame_finished(audio_samples as nat, sound_interrupt_dispatched),
            kept_apart(old(self)@, final(self)@),
            final(self).wf(),
    {
        self.dispatcher.redraw_chrome(&mut self.bus);
        proof {
            reveal(RunnerView::frame_finished);
            lemma_audio_finished(self@, audio_samples as nat, sound_interrupt_dispatched);
        }
        self.finish_audio_frame(audio_samples, sound_interrupt_dispatched);
    }

    pub(crate) fn leave_slice(&mut self, o: &SliceOrder, st: SliceState)
        requires
            old(self).wf(),
        ensures
            final(self)@ == RunnerView::left(old(self).at(st), *o),
            kept_apart(old(self)@, final(self)@),
            final(self).wf(),
    {
        self.cancel_idle_cycle_observation();
        self.end_frame(o, st.called || o.sound_work_only);
    }

    pub(crate) fn begin_slice(&mut self) -> (r: SliceState)
        requires
            old(self).wf(),
        ensures
            final(self).at(r) == old(self)@.slice(),
            r.count == 0,
            kept_apart(old(self)@, final(self)@),
            final(self).wf(),
    {
        self.cancel_idle_cycle_observation();
        self.sync_instruction_count();
        let called: bool = match self.active_interrupt_callback {
            Some(a) => is_sound_interrupt_source(a.source),
            None => false,
        };
        SliceState { count: 0, called, capped: false }
    }

    pub(crate) fn order_slice(
        &self,
        max_steps: usize,
        tick_cap: Option<u32>,
        audio_samples: usize,
        yield_for_ui: bool,
        sound_work_only: bool,
        finish_frame: bool,
    ) -> (r: SliceOrder)
        ensures
            r == self@.order(max_steps, tick_cap, audio_samples, yield_for_ui, sound_work_only, finish_frame),
    {
        let capped: Option<u32> = match (self.frozen_ticks, tick_cap) {
            (Some(frozen), Some(_)) => Some(frozen),
            _ => tick_cap,
        };
        SliceOrder {
            max_steps: if max_steps <= MOST_STEPS { max_steps } else { MOST_STEPS },
            host_tick: tick_cap,
            tick_cap: capped,
            audio_samples,
            yield_for_ui,
            sound_work_only,
            finish_frame,
            single: false,
        }
    }

    /// The machine is well formed.
    #[verifier::opaque]
    pub open spec fn ready(&self) -> bool {
        self.wf()
    }

    /// This machine within a slice, as one value.
    #[verifier::opaque]
    pub open spec fn stands(&self, st: SliceState) -> SliceView {
        self.at(st)
    }

    fn slice_goes_on(&self, o: &SliceOrder, st: SliceState) -> (r: bool)
        ensures
            r == self.stands(st).goes_on(*o),
    {
        proof {
            reveal(FixtureRunner::stands);
        }
        st.count < o.max_steps && !self.halted && !st.capped
    }

    fn next_turn(&mut self, o: &SliceOrder, st: SliceState) -> (r: (SliceState, Flow))
        requires
            old(self).ready(),
            old(self).stands(st).goes_on(*o),
            o.max_steps <= MOST_STEPS,
        ensures
            final(self).ready(),
            final(self).stands(r.0).count == r.0.count,
            turned(old(self).stands(st), final(self).stands(r.0), *o, r.1),
            turn_counts(old(self).stands(st), final(self).stands(r.0), *o, r.1),
            r.1 is Again ==> turn_advances(old(self).stands(st), final(self).stands(r.0)),
    {
        proof {
            reveal(FixtureRunner::ready);
            reveal(FixtureRunner::stands);
        }
        let ghost s = self.at(st);
        let r: (SliceState, Flow) = self.turn(o, st);
        proof {
            lemma_turned(s, self.at(r.0), *o, r.1);
        }
        r
    }

    fn close_slice(&mut self, o: &SliceOrder, st: SliceState)
        requires
            old(self).ready(),
        ensures
            final(self).ready(),
            final(self).stands(st).m == RunnerView::left(old(self).stands(st), *o),
            kept_apart(old(self).stands(st).m, final(self).stands(st).m),
    {
        proof {
            reveal(FixtureRunner::ready);
            reveal(FixtureRunner::stands);
        }
        self.leave_slice(o, st);
    }

    fn close_frame(&mut self, o: &SliceOrder, st: SliceState)
        requires
            old(self).ready(),
        ensures
            final(self).ready(),
            final(self).stands(st).m == old(self).stands(st).m.framed(*o, st.called),
            old(self).stands(st).called == st.called,
            kept_apart(old(self).stands(st).m, final(self).stands(st).m),
    {
        proof {
            reveal(FixtureRunner::ready);
            reveal(FixtureRunner::stands);
        }
        self.end_frame(o, st.called);
    }

    /// Takes the turns of a slice from its beginning to its end.
    fn take_turns(&mut self, o: &SliceOrder, st: SliceState) -> (r: (usize, bool, SliceState))
        requires
            old(self).ready(),
            old(self).stands(st).count == 0,
            st.count == 0,
            o.max_steps <= MOST_STEPS,
        ensures
            final(self).ready(),
            exists|path: Seq<SliceView>| #[trigger]
                turns(path, old(self).stands(st), *o) && RunnerView::slice_ends(
                    path,
                    *o,
                    final(self).stands(r.2).m,
                    (r.0, r.1),
                ),
            r.1 == !final(self).stands(r.2).m.halted,
            final(self).stands(r.2).m.total_instructions == old(self).stands(st).m.total_instructions.wrapping_add(
                r.0 as u64,
            ),
            r.0 <= o.max_steps + 5,
    {
        let mut now: SliceState = st;
        let ghost first = self.stands(st);
        let ghost mut path: Seq<SliceView> = seq![first];
        while self.slice_goes_on(o, now)
            invariant
                self.ready(),
                o.max_steps <= MOST_STEPS,
                turns(path, first, *o),
                first == old(self).stands(st),
                path.last() == self.stands(now),
                self.stands(now).count == now.count,
                self.stands(now).m.total_instructions == first.m.total_instructions.wrapping_add(now.count as u64),
                now.count <= o.max_steps + 5,
            decreases
                (if now.count < o.max_steps { o.max_steps - now.count } else { 0 }),
                self.stands(now).m.disp.modeless_dialog_draw_proc_queue.len(),
                (if self.stands(now).m.active is None { 1int } else { 0int }),
                sound_queue(self.stands(now).m),
        {
            let ghost s = self.stands(now);
            let (next, flow): (SliceState, Flow) = self.next_turn(o, now);
            let ghost t = self.stands(next);
            now = next;
            match flow {
                Flow::Halt => {
                    assert(RunnerView::slice_ends(path, *o, self.stands(now).m, (now.count, false)));
                    return (now.count, false, now);
                },
                Flow::Yield => {
                    self.close_frame(o, now);
                    assert(turned(s, t, *o, flow));
                    assert(RunnerView::slice_ends(path, *o, self.stands(now).m, (now.count, true)));
                    return (now.count, true, now);
                },
                Flow::Leave => {
                    self.close_slice(o, now);
                    assert(turned(s, t, *o, flow));
                    assert(RunnerView::slice_ends(path, *o, self.stands(now).m, (now.count, true)));
                    return (now.count, true, now);
                },
                _ => {},
            }
            proof {
                lemma_one_more(path, first, *o, t);
                path = path.push(t);
            }
        }
        self.close_slice(o, now);
        let runs: bool = self.still_runs(now);
        assert(RunnerView::slice_ends(path, *o, self.stands(now).m, (now.count, runs)));
        (now.count, runs, now)
    }

    fn still_runs(&self, st: SliceState) -> (r: bool)
        ensures
            r == !self.stands(st).m.halted,
    {
        proof {
            reveal(FixtureRunner::stands);
        }
        !self.halted
    }

    /// Runs a slice of execution: turn after turn, until the instructions are
    /// used up, the tick cap is reached, the machine has halted, or there is
    /// something for the host to do. Returns the instructions executed and
    /// whether the machine still runs.
    pub fn run_steps_internal(
        &mut self,
        max_steps: usize,
        tick_cap: Option<u32>,
        audio_samples: usize,
        yield_for_ui: bool,
        sound_work_only: bool,
        finish_frame: bool,
    ) -> (r: (usize, bool))
        requires
            old(self).wf(),
        ensures
            final(self).wf(),
            old(self)@.slice_may_end(
                old(self)@.order(max_steps, tick_cap, audio_samples, yield_for_ui, sound_work_only, finish_frame),
                final(self)@,
                r,
            ),
            r.1 == !final(self)@.halted,
            final(self)@.total_instructions == old(self)@.total_instructions.wrapping_add(r.0 as u64),
            r.0 <= max_steps + 5,
    {
        proof {
            reveal(FixtureRunner::ready);
            reveal(FixtureRunner::stands);
        }
        let o: SliceOrder = self.order_slice(
            max_steps,
            tick_cap,
            audio_samples,
            yield_for_ui,
            sound_work_only,
            finish_frame,
        );
        let st: SliceState = self.begin_slice();
        let r: (usize, bool, SliceState) = self.take_turns(&o, st);
        (r.0, r.1)
    }
}

proof fn lemma_one_more(path: Seq<SliceView>, s: SliceView, o: SliceOrder, t: SliceView)
    requires
        turns(path, s, o),
        path.last().goes_on(o),
        turned(path.last(), t, o, Flow::Again),
    ensures
        turns(path.push(t), s, o),
{
    let longer = path.push(t);
    assert forall|i: int| 0 <= i < longer.len() - 1 implies (#[trigger] longer[i]).goes_on(o) && turned(
        longer[i],
        longer[i + 1],
        o,
        Flow::Again,
    ) by {
        if i < path.len() - 1 {
            assert(path[i].goes_on(o));
        }
    }
}

proof fn lemma_turns_record(path: Seq<SliceView>, s: SliceView, o: SliceOrder, i: int)
    requires
        turns(path, s, o),
        1 <= s.m.instructions_per_tick <= 0x7fff_ffff,
        0 <= i < path.len(),
    ensures
        hushed(s.m, path[i].m),
        1 <= path[i].m.instructions_per_tick <= 0x7fff_ffff,
        i > 0 ==> !path[i].m.halted,
    decreases i,
{
    if i > 0 {
        lemma_turns_record(path, s, o, i - 1);
        assert(path[i - 1].goes_on(o));
        lemma_turned(path[i - 1], path[i], o, Flow::Again);
    }
}

proof fn lemma_framed_record(s: RunnerView, o: SliceOrder, called: bool)
    ensures
        kept_apart(s, s.framed(o, called)),
        !o.finish_frame || o.audio_samples == 0 ==> hushed(s, s.framed(o, called)),
{
    reveal(RunnerView::frame_finished);
    lemma_audio_finished(RunnerView { bus: s.disp.redrawn(s.bus), ..s }, o.audio_samples as nat, called);
}

/// A run that halts the machine records where, with its stack pointer and D0. A run of a
/// machine that is halted leaves that record. A run that mixes no sound leaves the
/// samples that nobody has fetched yet.
pub proof fn lemma_run_records(s: RunnerView, o: SliceOrder, t: RunnerView, r: (usize, bool))
    requires
        s.slice_may_end(o, t, r),
        1 <= s.instructions_per_tick <= 0x7fff_ffff,
    ensures
        !s.halted && t.halted ==> t.recorded(),
        s.halted ==> t.halted && t.halted_pc == s.halted_pc && t.halted_sp == s.halted_sp && t.halted_d0 == s.halted_d0,
        !o.finish_frame || o.audio_samples == 0 ==> t.audio_buffer == s.audio_buffer && t.host_audio == s.host_audio,
{
    let path = choose|path: Seq<SliceView>| #[trigger]
        turns(path, s.slice(), o) && RunnerView::slice_ends(path, o, t, r);
    lemma_turns_record(path, s.slice(), o, path.len() - 1);
    let last = path.last();
    if s.halted && path.len() > 1 {
        assert(path[0].goes_on(o));
    }
    if !last.goes_on(o) {
        lemma_framed_record(last.m.unobserved(), o, last.called || o.sound_work_only);
    } else {
        let (u, flow) = choose|u: SliceView, flow: Flow|
            {
                &&& #[trigger] turned(last, u, o, flow)
                &&& r.0 == u.count
                &&& match flow {
                    Flow::Leave => t == RunnerView::left(u, o) && r.1,
                    Flow::Halt => t == u.m && !r.1,
                    Flow::Yield => t == u.m.framed(o, u.called) && r.1,
                    _ => false,
                }
            };
        lemma_turned(last, u, o, flow);
        lemma_framed_record(u.m.unobserved(), o, u.called || o.sound_work_only);
        lemma_framed_record(u.m, o, u.called);
    }
}

} // verus!

use vstd::prelude::*;

use crate::cpu::{batch_may_end, CpuExit, Register};
use crate::memory::{group_memory_lengths, BusView};
use crate::policy::BATCH_CHUNK;
use crate::runner::{ActiveInterruptCallback, ActiveInterruptCallbackSource, FixtureRunner, RunnerView};
use crate::trap::DispView;

verus! {

broadcast use {group_memory_lengths, crate::trap::group_dispatcher_fields};

/// Addresses below this one hold no code.
pub const LOWEST_CODE: u32 = 0x60;

/// What the host asks of a slice of execution.
#[derive(Clone, Copy)]
pub struct SliceOrder {
    /// Most instructions to run.
    pub max_steps: usize,
    /// The tick that the host's clock shows.
    pub host_tick: Option<u32>,
    /// The tick at which the slice ends: the host's, or that of a stopped clock.
    pub tick_cap: Option<u32>,
    /// Frames of sound to mix at the end.
    pub audio_samples: usize,
    /// The host shows the screen while tracking goes on.
    pub yield_for_ui: bool,
    /// Only sound callbacks run.
    pub sound_work_only: bool,
    /// The host's frame ends with the slice.
    pub finish_frame: bool,
    /// The host looks at each instruction, so a turn runs one at most.
    pub single: bool,
}

/// How a slice goes on.
#[derive(Clone, Copy, Debug, PartialEq, Eq, Structural)]
pub enum Flow {
    /// With the next part of this turn.
    Run,
    /// With the next turn.
    Again,
    /// The slice is over.
    Leave,
    /// The slice is over because the machine has halted.
    Halt,
    /// The slice is over so that the host can show the screen.
    Yield,
}

impl RunnerView {
    /// The machine is halted at `pc`.
    pub open spec fn halted_at(self, pc: u32) -> RunnerView {
        RunnerView {
            halted: true,
            halted_pc: Some(pc),
            halted_sp: Some(self.cpu.sp()),
            halted_d0: Some(self.cpu.reg(Register::D0)),
            ..self
        }
    }

    /// The state after one sound callback or refill had its chance, and whether
    /// one was called.
    pub open spec fn sound_called(self) -> (RunnerView, bool) {
        let (s, called) = self.sound_fired();
        if called {
            (s, true)
        } else {
            s.doubleback_fired()
        }
    }

    /// The state after interrupt work had its chance: a file completion, one
    /// sound callback unless `called` says that there was one, and a timer task.
    /// When only sound work runs the others wait, and with none left the slice is
    /// over.
    #[verifier::opaque]
    pub open spec fn work_called(self, o: SliceOrder, called: bool) -> (RunnerView, Flow, bool) {
        if o.sound_work_only && self.active is None && (called || !self.sound_work_pending()) {
            (self, Flow::Leave, called)
        } else {
            let a = if o.sound_work_only {
                self
            } else {
                self.file_completed().0
            };
            let asks = a.active is None && !called;
            let (b, now_called) = if asks {
                a.sound_called()
            } else {
                (a, called)
            };
            if asks && o.sound_work_only && !now_called {
                (b, Flow::Again, false)
            } else if o.sound_work_only && b.active is None {
                (b, Flow::Leave, now_called)
            } else if !o.sound_work_only && b.active is None {
                let c = b.timer_fired(b.timer_now());
                (
                    c,
                    if c.active is Some {
                        Flow::Again
                    } else {
                        Flow::Run
                    },
                    now_called,
                )
            } else {
                (b, Flow::Run, now_called)
            }
        }
    }

    /// The state after sleeping and delaying had their time. A stopped processor
    /// halts the machine.
    #[verifier::opaque]
    pub open spec fn waits_served(self, o: SliceOrder) -> (RunnerView, Flow) {
        let (a, sleeps) = if o.sound_work_only {
            (self, false)
        } else {
            self.sleep_served(o.tick_cap)
        };
        if sleeps {
            (a, Flow::Leave)
        } else {
            let (b, delays) = if o.sound_work_only {
                (a, false)
            } else {
                a.delay_served(o.tick_cap)
            };
            if delays {
                (b, Flow::Leave)
            } else if b.cpu.stopped != 0 {
                (b.halted_at(b.cpu.pc), Flow::Halt)
            } else {
                (b, Flow::Run)
            }
        }
    }

    /// The running callback has returned.
    pub open spec fn callback_over(self) -> bool {
        self.active matches Some(a) && self.cpu.pc == a.resume_pc && self.cpu.sp() == a.resume_sp
    }

    /// The state without a running callback: the application goes on where it was
    /// interrupted, with instructions to run.
    pub open spec fn callback_ended(self) -> RunnerView {
        match self.active {
            Some(a) => {
                let s = self.resumed(a);
                RunnerView {
                    active: None,
                    disp: if a.source is DialogDrawProc {
                        DispView { active_modeless_dialog_draw_proc: None, ..s.disp }
                    } else {
                        s.disp
                    },
                    ..s
                }.foreground_refilled()
            },
            None => self,
        }
    }

    /// A draw procedure of a modeless dialog runs.
    pub open spec fn draws_modeless(self) -> bool {
        self.active matches Some(a) && a.source is DialogDrawProc && self.disp.active_modeless_dialog_draw_proc is Some
    }

    /// The state after a callback that has returned was left. Behind a draw
    /// procedure of a modeless dialog comes the next one.
    #[verifier::opaque]
    pub open spec fn callback_left(self, o: SliceOrder) -> (RunnerView, Flow) {
        if !self.callback_over() {
            (self, Flow::Run)
        } else {
            let s = self.callback_ended();
            let (t, again) = if self.draws_modeless() {
                s.modeless_drawn()
            } else {
                (s, false)
            };
            (
                t,
                if again {
                    Flow::Again
                } else if o.sound_work_only {
                    Flow::Leave
                } else {
                    Flow::Run
                },
            )
        }
    }

    /// No application runs at `pc`: it lies outside RAM or too low.
    pub open spec fn bad_pc(self, pc: u32) -> bool {
        pc < LOWEST_CODE || pc >= self.bus.ram_size()
    }

    /// Instructions that run now take time.
    pub open spec fn charging(self, o: SliceOrder) -> bool {
        !o.sound_work_only && self.active is None && self.frozen_ticks is None
    }

    /// The state after the instruction at a tick's end was charged ahead, whether
    /// it was, and whether the tick cap ended the slice.
    #[verifier::opaque]
    pub open spec fn precharged(self, o: SliceOrder) -> (RunnerView, bool, bool) {
        if self.charging(o) && self.tick_budget <= 1 {
            let (s, over) = self.charged(1, o.tick_cap);
            (s, !over, over)
        } else {
            (self, false, false)
        }
    }

    /// How many instructions run before the next look at the pending work: one where
    /// the host looks at each, never beyond the slice's end, and while they take time
    /// never beyond the tick's.
    pub open spec fn batch_size(self, o: SliceOrder, count: int, charging: bool) -> int {
        let left = o.max_steps - count;
        let n = if o.single {
            1
        } else if left < BATCH_CHUNK {
            left
        } else {
            BATCH_CHUNK as int
        };
        if charging && self.active is None {
            let most = if self.tick_budget <= 2 {
                1
            } else {
                self.tick_budget - 1
            };
            if most < n {
                most
            } else {
                n
            }
        } else {
            n
        }
    }

    /// The addresses that end a run of instructions: 0, and where the running
    /// callback returns to.
    pub open spec fn watched(self) -> Seq<u32> {
        match self.active {
            Some(a) => seq![0u32, a.resume_pc],
            None => seq![0u32],
        }
    }

    /// `t` may follow when `n` instructions, at most `max`, have run and ended
    /// with `exit`: they change the processor and memory as the interpreter does, and
    /// nothing else.
    pub open spec fn ran(self, t: RunnerView, max: int, n: u32, exit: CpuExit) -> bool {
        &&& batch_may_end(
            self.cpu,
            self.bus.mem,
            max as u32,
            self.watched(),
            n,
            exit,
            t.cpu,
            t.bus.mem,
        )
        &&& n <= max
        &&& exit is BudgetExhausted ==> n == max
        &&& exit matches CpuExit::WatchedPc(pc) ==> n >= 1 && self.watched().contains(pc) && t.cpu.pc == pc
        &&& exit matches CpuExit::Aline(op) ==> 0xA000 <= op <= 0xAFFF && t.cpu.pc == t.cpu.ppc.wrapping_add(2)
        &&& t.cpu.dar.len() == 16
        &&& t.bus.mem.len() == self.bus.mem.len()
        &&& t == (RunnerView { cpu: t.cpu, bus: BusView { mem: t.bus.mem, ..self.bus }, ..self })
    }

    /// The state after the instructions of a run were counted and charged, and
    /// whether the tick cap was reached. A trap word counts as an instruction.
    #[verifier::opaque]
    pub open spec fn accounted(self, o: SliceOrder, n: u32, exit: CpuExit, ahead: bool) -> (RunnerView, bool) {
        let k = executed(n, exit);
        if k == 0 {
            (self, false)
        } else {
            let s = RunnerView { total_instructions: self.total_instructions.wrapping_add(k as u64), ..self };
            if o.sound_work_only {
                (s, false)
            } else {
                s.charged(
                    (if ahead {
                        k - 1
                    } else {
                        k
                    }) as i32,
                    o.tick_cap,
                )
            }
        }
    }
}

/// How many instructions a run counts as.
pub open spec fn executed(n: u32, exit: CpuExit) -> int {
    if exit is Aline || exit is Fline {
        n + 1
    } else {
        n as int
    }
}

impl FixtureRunner {
    /// Halts the machine at `pc`.
    pub fn halt_at(&mut self, pc: u32)
        requires
            old(self).wf(),
        ensures
            final(self)@ == old(self)@.halted_at(pc),
            final(self).wf(),
    {
        self.halted = true;
        self.halted_pc = Some(pc);
        self.halted_sp = Some(self.cpu.read_reg(Register::A7));
        self.halted_d0 = Some(self.cpu.read_reg(Register::D0));
    }

    fn call_sound(&mut self) -> (r: bool)
        requires
            old(self).wf(),
        ensures
            (final(self)@, r) == old(self)@.sound_called(),
            final(self).wf(),
    {
        if self.fire_sound_callbacks() {
            return true;
        }
        self.fire_sound_doubleback_callbacks()
    }

    /// Gives interrupt work its chance.
    pub fn call_work(&mut self, o: &SliceOrder, called: bool) -> (r: (Flow, bool))
        requires
            old(self).wf(),
        ensures
            (final(self)@, r.0, r.1) == old(self)@.work_called(*o, called),
            final(self).wf(),
    {
        proof {
            reveal(RunnerView::work_called);
        }
        if o.sound_work_only && self.active_interrupt_callback.is_none() && (called || !self.has_pending_sound_work()) {
            return (Flow::Leave, called);
        }
        if !o.sound_work_only {
            self.fire_file_completion_callback();
        }
        let mut now_called: bool = called;
        if self.active_interrupt_callback.is_none() && !called {
            now_called = self.call_sound();
            if o.sound_work_only && !now_called {
                return (Flow::Again, false);
            }
        }
        if self.active_interrupt_callback.is_some() {
            return (Flow::Run, now_called);
        }
        if o.sound_work_only {
            return (Flow::Leave, now_called);
        }
        let now: u64 = self.current_timer_subtick();
        self.fire_timer_tasks_at(now);
        if self.active_interrupt_callback.is_some() {
            (Flow::Again, now_called)
        } else {
            (Flow::Run, now_called)
        }
    }

    /// Gives sleeping and delaying their time.
    pub fn serve_waits(&mut self, o: &SliceOrder) -> (r: Flow)
        requires
            old(self).wf(),
        ensures
            (final(self)@, r) == old(self)@.waits_served(*o),
            final(self).wf(),
    {
        proof {
            reveal(RunnerView::waits_served);
        }
        if !o.sound_work_only {
            if self.service_wait_sleep_ticks(o.tick_cap) {
                return Flow::Leave;
            }
            if self.service_delay_ticks(o.tick_cap) {
                return Flow::Leave;
            }
        }
        if self.cpu.is_stopped() {
            let pc: u32 = self.cpu.read_reg(Register::PC);
            self.halt_at(pc);
            return Flow::Halt;
        }
        Flow::Run
    }

    fn end_callback(&mut self, a: &ActiveInterruptCallback)
        requires
            old(self).wf(),
            old(self)@.active == Some(a@),
        ensures
            final(self)@ == old(self)@.callback_ended(),
            final(self).wf(),
    {
        self.restore_interrupted(a);
        if matches!(a.source, ActiveInterruptCallbackSource::DialogDrawProc) {
            self.dispatcher.finalize_dialog_draw_procs_if_idle();
        }
        self.active_interrupt_callback = None;
        self.refill_foreground_budget_after_async_return();
    }

    /// Leaves a callback that has returned.
    pub fn leave_callback(&mut self, o: &SliceOrder) -> (r: Flow)
        requires
            old(self).wf(),
        ensures
            (final(self)@, r) == old(self)@.callback_left(*o),
            final(self).wf(),
    {
        proof {
            reveal(RunnerView::callback_left);
        }
        let a: ActiveInterruptCallback = match self.active_interrupt_callback {
            Some(a) => a,
            None => return Flow::Run,
        };
        if self.cpu.read_reg(Register::PC) != a.resume_pc || self.cpu.read_reg(Register::A7) != a.resume_sp {
            return Flow::Run;
        }
        let modeless: bool = matches!(a.source, ActiveInterruptCallbackSource::DialogDrawProc)
            && self.dispatcher.draws_modeless_dialog();
        self.end_callback(&a);
        if modeless && self.fire_modeless_dialog_draw_proc() {
            return Flow::Again;
        }
        if o.sound_work_only {
            Flow::Leave
        } else {
            Flow::Run
        }
    }

    /// Whether instructions that run now take time.
    fn is_charging(&self, o: &SliceOrder) -> (r: bool)
        ensures
            r == self@.charging(*o),
    {
        !o.sound_work_only && self.active_interrupt_callback.is_none() && self.frozen_ticks.is_none()
    }

    /// Charges the instruction at a tick's end ahead: whether it was charged, and
    /// whether the tick cap ended the slice.
    pub fn precharge(&mut self, o: &SliceOrder) -> (r: (bool, bool))
        requires
            old(self).wf(),
        ensures
            (final(self)@, r.0, r.1) == old(self)@.precharged(*o),
            final(self).wf(),
    {
        proof {
            reveal(RunnerView::precharged);
        }
        if self.is_charging(o) && self.tick_budget <= 1 {
            let over: bool = self.charge_tick_budget(1, o.tick_cap);
            (!over, over)
        } else {
            (false, false)
        }
    }

    fn size_batch(&self, o: &SliceOrder, count: usize, charging: bool) -> (r: u32)
        requires
            count < o.max_steps,
        ensures
            r == self@.batch_size(*o, count as int, charging),
            1 <= r <= BATCH_CHUNK,
    {
        let left: usize = o.max_steps - count;
        let n: u32 = if o.single { 1 } else if left < BATCH_CHUNK { left as u32 } else { BATCH_CHUNK as u32 };
        if charging && self.active_interrupt_callback.is_none() {
            let most: u32 = if self.tick_budget <= 2 { 1 } else { (self.tick_budget - 1) as u32 };
            if most < n { most } else { n }
        } else {
            n
        }
    }

    /// Runs instructions up to the next look at the pending work.
    pub fn run_instructions(&mut self, o: &SliceOrder, count: usize, charging: bool) -> (r: (u32, CpuExit))
        requires
            old(self).wf(),
            count < o.max_steps,
        ensures
            old(self)@.ran(final(self)@, old(self)@.batch_size(*o, count as int, charging), r.0, r.1),
            1 <= old(self)@.batch_size(*o, count as int, charging) <= BATCH_CHUNK,
            final(self).wf(),
    {
        let max: u32 = self.size_batch(o, count, charging);
        let r: (u32, CpuExit) = match self.active_interrupt_callback {
            Some(a) => {
                let watch: [u32; 2] = [0, a.resume_pc];
                assert(watch@ =~= self@.watched());
                self.cpu.run_batch(&mut self.bus, max, watch.as_slice())
            },
            None => {
                let watch: [u32; 1] = [0];
                assert(watch@ =~= self@.watched());
                self.cpu.run_batch(&mut self.bus, max, watch.as_slice())
            },
        };
        r
    }

    /// Counts and charges the instructions of a run, and says whether the tick cap
    /// was reached.
    pub fn account(&mut self, o: &SliceOrder, n: u32, exit: CpuExit, ahead: bool) -> (r: bool)
        requires
            old(self).wf(),
            n <= BATCH_CHUNK,
        ensures
            (final(self)@, r) == old(self)@.accounted(*o, n, exit, ahead),
            final(self).wf(),
    {
        proof {
            reveal(RunnerView::accounted);
        }
        let k: u32 = match exit {
            CpuExit::Aline(_) => n + 1,
            CpuExit::Fline(_) => n + 1,
            _ => n,
        };
        if k == 0 {
            return false;
        }
        self.total_instructions = self.total_instructions.wrapping_add(k as u64);
        if o.sound_work_only {
            return false;
        }
        let units: i32 = if ahead { k as i32 - 1 } else { k as i32 };
        self.charge_tick_budget(units, o.tick_cap)
    }
}

} // verus!

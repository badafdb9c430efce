use vstd::prelude::*;

use crate::cpu::{instruction_may_end, CpuStep, Register, StepResult};
use crate::memory::{group_memory_lengths, BusView};
use crate::runner::{FixtureRunner, RunnerView};
use crate::slice::{SliceOrder, LOWEST_CODE};
use crate::trap::Error;
use crate::traps::served;

verus! {

broadcast use {group_memory_lengths, crate::trap::group_dispatcher_fields};

impl RunnerView {
    /// What the host asks for with a number of instructions and some sound.
    pub open spec fn audio_order(self, max_steps: usize, tick: Option<u32>, audio_samples: usize) -> SliceOrder {
        self.order(max_steps, tick, audio_samples, tick is Some, false, true)
    }

    /// What a host that shows the screen asks for up to a tick.
    pub open spec fn gui_order(self, max_steps: usize, tick: u32, audio_samples: usize) -> SliceOrder {
        self.order(max_steps, Some(tick), audio_samples, true, false, true)
    }

    /// What the host asks for with a number of instructions alone.
    pub open spec fn steps_order(self, max_steps: usize, tick: Option<u32>) -> SliceOrder {
        self.order(max_steps, tick, 0, false, false, true)
    }

    /// `t` may follow when one instruction came to `r`: it changes the processor
    /// and memory as the interpreter does, and nothing else.
    pub open spec fn stepped(self, t: RunnerView, r: StepResult) -> bool {
        &&& if self.cpu.stopped != 0 {
            r is Stopped && t.cpu == self.cpu && t.bus.mem == self.bus.mem
        } else {
            exists|end: CpuStep|
                r == end.result() && #[trigger] instruction_may_end(
                    self.cpu,
                    self.bus.mem,
                    end,
                    t.cpu,
                    t.bus.mem,
                )
        }
        &&& r matches StepResult::Aline(op) ==> 0xA000 <= op <= 0xAFFF && t.cpu.pc == t.cpu.ppc.wrapping_add(2)
        &&& t.cpu.dar.len() == 16
        &&& t.bus.mem.len() == self.bus.mem.len()
        &&& t == (RunnerView { cpu: t.cpu, bus: BusView { mem: t.bus.mem, ..self.bus }, ..self })
    }

    /// The program counter is where no instruction is: outside RAM or too low.
    /// Address 0 counts as an instruction here.
    pub open spec fn strayed(self) -> bool {
        self.cpu.pc >= self.bus.ram_size() || 0 < self.cpu.pc < LOWEST_CODE
    }

    /// The state behind trap `opcode`, whose word stood at `pc`, and how the run
    /// ends with it.
    #[verifier::opaque]
    pub open spec fn trap_stepped(self, opcode: u16, pc: u32) -> (RunnerView, Option<Result<(), Error>>) {
        let (disp, cpu, bus, r) = served(
            self.disp.trapped(opcode, self.cpu.pc.wrapping_sub(2)),
            self.cpu,
            self.bus,
            opcode,
        );
        let t = RunnerView { disp, cpu, bus, ..self };
        match r {
            Ok(_) => (
                if t.cpu.pc == pc {
                    RunnerView { cpu: t.cpu.with(Register::PC, pc.wrapping_add(2)), ..t }
                } else {
                    t
                },
                None,
            ),
            Err(Error::Halted) => (t, Some(Ok(()))),
            Err(e) => (t, Some(Err(e))),
        }
    }

    /// `t` may follow when a run has gone on by an instruction, and `end` says how
    /// it ends with it. The run ends well when the processor has stopped, when the
    /// application has ended, and when the program counter has strayed.
    #[verifier::opaque]
    pub open spec fn run_on(self, t: RunnerView, end: Option<Result<(), Error>>) -> bool {
        if self.cpu.stopped != 0 || self.strayed() {
            t == self && end == Some(Ok::<(), Error>(()))
        } else {
            exists|u: RunnerView, r: StepResult|
                {
                    &&& #[trigger] self.stepped(u, r)
                    &&& match r {
                        StepResult::Done => t == u && end is None,
                        StepResult::Stopped => t == u && end == Some(Ok::<(), Error>(())),
                        StepResult::Aline(opcode) => (t, end) == u.trap_stepped(opcode, self.cpu.pc),
                    }
                }
        }
    }

    /// The states that a run goes through, one per instruction, from this one on.
    pub open spec fn run_goes(self, path: Seq<RunnerView>) -> bool {
        &&& path.len() >= 1
        &&& path[0] == self
        &&& forall|i: int| 0 <= i < path.len() - 1 ==> (#[trigger] path[i]).run_on(path[i + 1], None)
    }

    /// A run from this state on may end as `t` with the result `r`: after at most
    /// `max` instructions, and with a timeout only after that many.
    pub open spec fn run_may_end(self, t: RunnerView, max: usize, r: Result<(), Error>) -> bool {
        exists|path: Seq<RunnerView>| #[trigger]
            self.run_goes(path) && if path.len() - 1 == max {
                t == path.last() && r == Err::<(), Error>(Error::Timeout(max))
            } else {
                path.len() - 1 < max && path.last().run_on(t, Some(r))
            }
    }
}

proof fn lemma_run_longer(s: RunnerView, path: Seq<RunnerView>, t: RunnerView)
    requires
        s.run_goes(path),
        path.last().run_on(t, None),
    ensures
        s.run_goes(path.push(t)),
{
    let longer = path.push(t);
    assert forall|i: int| 0 <= i < longer.len() - 1 implies (#[trigger] longer[i]).run_on(longer[i + 1], None) by {
        if i < path.len() - 1 {
            assert(path[i].run_on(path[i + 1], None));
        }
    }
}

impl FixtureRunner {
    /// Runs one instruction.
    pub fn step(&mut self) -> (r: StepResult)
        requires
            old(self).wf(),
        ensures
            final(self).wf(),
            old(self)@.stepped(final(self)@, r),
    {
        self.cpu.step(&mut self.bus)
    }

    fn step_trap(&mut self, opcode: u16, pc: u32) -> (r: Option<Result<(), Error>>)
        requires
            old(self).wf(),
        ensures
            final(self).wf(),
            (final(self)@, r) == old(self)@.trap_stepped(opcode, pc),
    {
        proof {
            reveal(RunnerView::trap_stepped);
        }
        match self.dispatcher.dispatch(opcode, &mut self.cpu, &mut self.bus) {
            Ok(_) => {
                if self.cpu.read_reg(Register::PC) == pc {
                    self.cpu.write_reg(Register::PC, pc.wrapping_add(2));
                }
                None
            },
            Err(Error::Halted) => Some(Ok(())),
            Err(e) => Some(Err(e)),
        }
    }

    fn go_on(&mut self) -> (r: Option<Result<(), Error>>)
        requires
            old(self).wf(),
        ensures
            final(self).wf(),
            old(self)@.run_on(final(self)@, r),
    {
        proof {
            reveal(RunnerView::run_on);
        }
        let pc: u32 = self.cpu.read_reg(Register::PC);
        if self.cpu.is_stopped() || pc >= self.bus.ram_size() || (0 < pc && pc < LOWEST_CODE) {
            return Some(Ok(()));
        }
        let stepped: StepResult = self.step();
        let ghost u = self@;
        assert(old(self)@.stepped(u, stepped));
        match stepped {
            StepResult::Done => None,
            StepResult::Stopped => Some(Ok(())),
            StepResult::Aline(opcode) => self.step_trap(opcode, pc),
        }
    }

    /// Runs the guest until it ends or as many instructions have run as the
    /// settings allow.
    pub fn run(&mut self) -> (r: Result<(), Error>)
        requires
            old(self).wf(),
        ensures
            final(self).wf(),
            old(self)@.run_may_end(final(self)@, old(self)@.config.max_instructions, r),
    {
        let max: usize = self.config.max_instructions;
        let mut count: usize = 0;
        let ghost mut path: Seq<RunnerView> = seq![self@];
        while count < max
            invariant
                count <= max,
                max == old(self)@.config.max_instructions,
                self.wf(),
                old(self)@.run_goes(path),
                path.len() == count + 1,
                path.last() == self@,
            decreases max - count,
        {
            match self.go_on() {
                Some(r) => {
                    return r;
                },
                None => {},
            }
            proof {
                lemma_run_longer(old(self)@, path, self@);
                path = path.push(self@);
            }
            count = count + 1;
        }
        Err(Error::Timeout(count))
    }

    /// Runs a number of instructions and mixes some sound for the host. With
    /// `tick_override` the clock stops at that tick; without, it follows the
    /// instructions.
    pub fn run_steps_with_audio(&mut self, max_steps: usize, tick_override: Option<u32>, audio_samples: usize) -> (r: (
        usize,
        bool,
    ))
        requires
            old(self).wf(),
        ensures
            final(self).wf(),
            old(self)@.slice_may_end(
                old(self)@.audio_order(max_steps, tick_override, audio_samples),
                final(self)@,
                r,
            ),
            r.1 == !final(self)@.halted,
            final(self)@.total_instructions == old(self)@.total_instructions.wrapping_add(r.0 as u64),
            r.0 <= max_steps + 5,
    {
        self.run_steps_internal(max_steps, tick_override, audio_samples, tick_override.is_some(), false, true)
    }

    /// Runs a number of instructions for a host that shows the screen; the clock
    /// follows the instructions.
    pub fn run_realtime_steps_with_audio(&mut self, max_steps: usize, audio_samples: usize) -> (r: (usize, bool))
        requires
            old(self).wf(),
        ensures
            final(self).wf(),
            old(self)@.slice_may_end(
                old(self)@.order(max_steps, None, audio_samples, true, false, true),
                final(self)@,
                r,
            ),
            r.1 == !final(self)@.halted,
            final(self)@.total_instructions == old(self)@.total_instructions.wrapping_add(r.0 as u64),
            r.0 <= max_steps + 5,
    {
        self.run_steps_internal(max_steps, None, audio_samples, true, false, true)
    }

    /// Runs a number of instructions for a host that shows the screen; the clock
    /// stops at `deadline_tick`.
    pub fn run_gui_slice_with_audio(&mut self, max_steps: usize, deadline_tick: u32, audio_samples: usize) -> (r: (
        usize,
        bool,
    ))
        requires
            old(self).wf(),
        ensures
            final(self).wf(),
            old(self)@.slice_may_end(
                old(self)@.gui_order(max_steps, deadline_tick, audio_samples),
                final(self)@,
                r,
            ),
            r.1 == !final(self)@.halted,
            final(self)@.total_instructions == old(self)@.total_instructions.wrapping_add(r.0 as u64),
            r.0 <= max_steps + 5,
    {
        self.run_steps_internal(max_steps, Some(deadline_tick), audio_samples, true, false, true)
    }

    /// The same without the end of a host frame.
    pub fn run_gui_cpu_slice(&mut self, max_steps: usize, deadline_tick: u32) -> (r: (usize, bool))
        requires
            old(self).wf(),
        ensures
            final(self).wf(),
            old(self)@.slice_may_end(
                old(self)@.order(max_steps, Some(deadline_tick), 0, true, false, false),
                final(self)@,
                r,
            ),
            r.1 == !final(self)@.halted,
            final(self)@.total_instructions == old(self)@.total_instructions.wrapping_add(r.0 as u64),
            r.0 <= max_steps + 5,
    {
        self.run_steps_internal(max_steps, Some(deadline_tick), 0, true, false, false)
    }

    /// Runs the sound work that waits, and nothing of the application.
    pub fn run_pending_sound_work(&mut self, max_steps: usize) -> (r: (usize, bool))
        requires
            old(self).wf(),
        ensures
            final(self).wf(),
            old(self)@.slice_may_end(old(self)@.order(max_steps, None, 0, true, true, true), final(self)@, r),
            r.1 == !final(self)@.halted,
            final(self)@.total_instructions == old(self)@.total_instructions.wrapping_add(r.0 as u64),
            r.0 <= max_steps + 5,
    {
        self.run_steps_internal(max_steps, None, 0, true, true, true)
    }

    /// Runs a number of instructions. Returns the instructions executed and
    /// whether the machine still runs.
    pub fn run_steps(&mut self, max_steps: usize, tick_override: Option<u32>) -> (r: (usize, bool))
        requires
            old(self).wf(),
        ensures
            final(self).wf(),
            old(self)@.slice_may_end(
                old(self)@.steps_order(max_steps, tick_override),
                final(self)@,
                r,
            ),
            r.1 == !final(self)@.halted,
            final(self)@.total_instructions == old(self)@.total_instructions.wrapping_add(r.0 as u64),
            r.0 <= max_steps + 5,
    {
        self.run_steps_internal(max_steps, tick_override, 0, false, false, true)
    }
}

/// A run with sound up to a tick is a slice for a host that shows the screen: from the
/// same state, both may end in the same ways.
pub proof fn lemma_audio_run_is_gui_slice(s: RunnerView, max_steps: usize, tick: u32, audio_samples: usize, t: RunnerView, r: (usize, bool))
    ensures
        s.slice_may_end(s.audio_order(max_steps, Some(tick), audio_samples), t, r) == s.slice_may_end(
            s.gui_order(max_steps, tick, audio_samples),
            t,
            r,
        ),
{
}

/// A run without a tick and without sound is a plain run: from the same state, both may
/// end in the same ways.
pub proof fn lemma_silent_run_is_plain_run(s: RunnerView, max_steps: usize, t: RunnerView, r: (usize, bool))
    ensures
        s.slice_may_end(s.audio_order(max_steps, None, 0), t, r) == s.slice_may_end(s.steps_order(max_steps, None), t, r),
{
}

} // verus!

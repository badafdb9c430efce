use vstd::prelude::*;

use crate::cpu::{CpuSnapshot, CpuView, Register};
use crate::globals::TICKS;
use crate::memory::{group_memory_lengths, BusView};
use crate::policy::{canonical_trap_number, trap_number};
use crate::runner::{
    FixtureRunner, IdleCycleHostSnapshot, IdleCycleProbe, ProbeView, ProvenIdleCycleSleep, RunnerView, SleepView,
};
use crate::spin::AdvanceResult;
use crate::trap::{DispView, TrapDispatcher};

verus! {

broadcast use {group_memory_lengths, crate::trap::group_dispatcher_fields};

impl IdleCycleHostSnapshot {
    /// The host input is as it was recorded.
    pub open spec fn is_of(&self, d: DispView) -> bool {
        &&& self.mouse_pos == d.mouse_pos
        &&& self.mouse_button == d.mouse_button
        &&& self.key_map@ == d.key_map
    }

    /// The host input at this moment.
    pub fn capture(dispatcher: &TrapDispatcher) -> (r: Self)
        ensures
            r.is_of(dispatcher@),
    {
        proof {
            reveal(TrapDispatcher::view);
        }
        IdleCycleHostSnapshot {
            mouse_pos: dispatcher.mouse_pos,
            mouse_button: dispatcher.mouse_button,
            key_map: dispatcher.key_map,
        }
    }

    /// Whether the host input is as it was recorded.
    pub fn still_holds(&self, dispatcher: &TrapDispatcher) -> (r: bool)
        ensures
            r == self.is_of(dispatcher@),
    {
        proof {
            reveal(TrapDispatcher::view);
        }
        let mut i: usize = 0;
        while i < 16
            invariant
                i <= 16,
                self.key_map@.len() == 16,
                dispatcher.key_map@.len() == 16,
                dispatcher.key_map@ == dispatcher@.key_map,
                forall|k: int| 0 <= k < i ==> self.key_map@[k] == dispatcher.key_map@[k],
            decreases 16 - i,
        {
            if self.key_map[i] != dispatcher.key_map[i] {
                return false;
            }
            i += 1;
        }
        assert(self.key_map@ =~= dispatcher.key_map@);
        self.mouse_pos.0 == dispatcher.mouse_pos.0 && self.mouse_pos.1 == dispatcher.mouse_pos.1 && self.mouse_button
            == dispatcher.mouse_button
    }
}

impl RunnerView {
    /// Nothing is under observation; a parked loop stays parked.
    pub open spec fn unobserved(self) -> RunnerView {
        RunnerView {
            bus: if self.idle_cycle_probe is Some { BusView { probe: None, ..self.bus } } else { self.bus },
            idle_cycle_probe: None,
            idle_cycle_last_seen: None,
            ..self
        }
    }

    /// The loop at `trap_pc` is under observation from now on: memory writes are
    /// recorded, and the processor state is remembered.
    pub open spec fn observing(self, trap_pc: u32, tick: u32, cpu: CpuView) -> RunnerView {
        RunnerView {
            bus: BusView { probe: Some(self.bus.mem), ..self.bus },
            idle_cycle_probe: Some(ProbeView { trap_pc, tick, cpu }),
            idle_cycle_last_seen: Some((trap_pc, tick)),
            ..self
        }
    }

    /// The loop at `trap_pc` is parked until `wake_tick`: memory writes are recorded, and
    /// the processor, the tick and the host input are remembered.
    pub open spec fn parked(self, trap_pc: u32, wake_tick: u32, cpu: CpuView) -> RunnerView {
        RunnerView {
            bus: BusView { probe: Some(self.bus.mem), ..self.bus },
            idle_cycle_probe: None,
            idle_cycle_last_seen: None,
            idle_cycle_sleep: Some(
                SleepView {
                    trap_pc,
                    wake_tick,
                    tick: self.disp.tick_count,
                    cpu,
                    mouse_pos: self.disp.mouse_pos,
                    mouse_button: self.disp.mouse_button,
                    key_map: self.disp.key_map,
                },
            ),
            ..self
        }
    }

    /// What an idle loop depends on beside memory: no callback runs, no key
    /// repeats, no application starts, no periodic work is due, and no event
    /// waits.
    pub open spec fn quiescent(self) -> bool {
        &&& self.active is None
        &&& self.disp.key_repeat is None
        &&& self.disp.pending_launch is None
        &&& !self.disp.desk_accessory_work
        &&& self.disp.next_event(0xFFFF) is None
    }

    /// Since the loop was parked nothing changed that it could notice.
    pub open spec fn undisturbed(self, sleep: SleepView, now: CpuView) -> bool {
        &&& self.bus.probe == Some(self.bus.mem)
        &&& sleep.cpu == now
        &&& self.disp.tick_count == sleep.tick
        &&& self.tick() == sleep.tick
        &&& sleep.mouse_pos == self.disp.mouse_pos
        &&& sleep.mouse_button == self.disp.mouse_button
        &&& sleep.key_map == self.disp.key_map
        &&& self.quiescent()
    }

    /// `t` follows when a parked loop, undisturbed, is taken up again under a
    /// tick cap: it sleeps on to its wake tick, and is parked again if the cap
    /// came first. `r` says that it was.
    pub open spec fn sleeps_on(
        self,
        t: RunnerView,
        trap_pc: u32,
        wake_tick: u32,
        cap: u32,
        cpu: CpuView,
        r: bool,
    ) -> bool {
        let (s, ended) = self.advanced_to(wake_tick, Some(cap));
        if ended is CapHit {
            r && t == s.parked(trap_pc, wake_tick, cpu)
        } else {
            !r && t == s.unwatched()
        }
    }

    /// `t` follows, with result `r`, when a parked loop is taken up and the
    /// processor state is `now`.
    pub open spec fn resumes_idle(self, t: RunnerView, cap: Option<u32>, now: CpuView, r: bool) -> bool {
        match self.idle_cycle_sleep {
            None => !r && t == self,
            Some(sleep) => {
                let taken = RunnerView {
                    bus: BusView { probe: None, ..self.bus },
                    idle_cycle_sleep: None,
                    ..self
                };
                match cap {
                    Some(c) if self.undisturbed(sleep, now) => taken.sleeps_on(
                        t,
                        sleep.trap_pc,
                        sleep.wake_tick,
                        c,
                        now,
                        r,
                    ),
                    _ => !r && t == self.unwatched(),
                }
            },
        }
    }

    /// The same with the present registers.
    pub open spec fn may_resume_idle(self, t: RunnerView, cap: Option<u32>, r: bool) -> bool {
        self.resumes_idle(t, cap, self.cpu.visible(), r)
    }

    /// The observed loop came round with the same processor state and the same
    /// memory, within the same tick.
    pub open spec fn came_round(self, probe: ProbeView, trap_pc: u32, now: CpuView) -> bool {
        &&& probe.trap_pc == trap_pc
        &&& probe.tick == self.disp.tick_count
        &&& probe.cpu == now
        &&& self.bus.probe == Some(self.bus.mem)
    }

    /// `t` follows, with result `r`, when a loop passes `trap_pc` under the tick
    /// cap `cap`, the processor state being `now`.
    pub open spec fn passes_idle(
        self,
        t: RunnerView,
        trap_pc: u32,
        wake_tick: u32,
        cap: u32,
        now: CpuView,
        r: bool,
    ) -> bool {
        let tick = self.disp.tick_count;
        match self.idle_cycle_probe {
            Some(probe) => {
                let closed = RunnerView {
                    bus: BusView { probe: None, ..self.bus },
                    idle_cycle_probe: None,
                    ..self
                };
                let seen = RunnerView { idle_cycle_last_seen: Some((trap_pc, tick)), ..closed };
                if self.came_round(probe, trap_pc, now) {
                    if tick >= cap {
                        r && t == seen.parked(trap_pc, wake_tick, now)
                    } else {
                        seen.sleeps_on(t, trap_pc, wake_tick, cap, now, r)
                    }
                } else if probe.trap_pc == trap_pc && probe.tick == tick {
                    !r && t == closed.observing(trap_pc, tick, now)
                } else {
                    !r && t == seen
                }
            },
            None => if self.idle_cycle_last_seen == Some((trap_pc, tick)) {
                !r && t == self.observing(trap_pc, tick, now)
            } else {
                !r && t == (RunnerView { idle_cycle_last_seen: Some((trap_pc, tick)), ..self })
            },
        }
    }

    /// The same with the present registers.
    pub open spec fn may_pass_idle(self, t: RunnerView, trap_pc: u32, wake_tick: u32, cap: u32, r: bool) -> bool {
        self.passes_idle(t, trap_pc, wake_tick, cap, self.cpu.visible(), r)
    }

    /// A loop at another place is under observation.
    pub open spec fn watches_elsewhere(self, trap_pc: u32) -> bool {
        self.idle_cycle_probe matches Some(p) && p.trap_pc != trap_pc
    }

    /// The trap `opcode` has just reported that there is no event.
    pub open spec fn null_event(self, opcode: u16) -> bool {
        let (tool, number) = trap_number(opcode);
        tool && (number == 0x170 || number == 0x171) && self.bus.get_word(self.cpu.sp()) == 0
    }

    /// The trap `opcode` has changed nothing but registers and memory.
    pub open spec fn quiet_trap(self, opcode: u16) -> bool {
        let (tool, number) = trap_number(opcode);
        ||| self.null_event(opcode)
        ||| tool && number == 0x71
        ||| tool && number == 0x1B4 && !self.disp.desk_accessory_work
    }

    /// The state when the result of trap `opcode` was noted.
    pub open spec fn noted(self, opcode: u16) -> RunnerView {
        if self.idle_cycle_probe is None || self.quiet_trap(opcode) {
            self
        } else {
            self.unwatched()
        }
    }
}

impl FixtureRunner {
    /// Ends an observation; a parked loop stays parked.
    pub fn cancel_idle_cycle_observation(&mut self)
        requires
            old(self).wf(),
        ensures
            final(self)@ == old(self)@.unobserved(),
            final(self).wf(),
    {
        if self.idle_cycle_probe.is_some() {
            self.bus.cancel_write_probe();
        }
        self.idle_cycle_probe = None;
        self.idle_cycle_last_seen = None;
    }

    fn begin_idle_cycle_probe(&mut self, trap_pc: u32, tick: u32, cpu: CpuSnapshot)
        requires
            old(self).wf(),
        ensures
            final(self)@ == old(self)@.observing(trap_pc, tick, cpu.registers()),
            final(self).wf(),
    {
        self.bus.begin_write_probe();
        self.idle_cycle_probe = Some(IdleCycleProbe { trap_pc, tick, cpu });
        self.idle_cycle_last_seen = Some((trap_pc, tick));
    }

    /// Parks an idle loop that was shown to change nothing, until `wake_tick`.
    pub fn park_proven_idle_cycle(&mut self, trap_pc: u32, wake_tick: u32, cpu: CpuSnapshot)
        requires
            old(self).wf(),
        ensures
            final(self)@ == old(self)@.parked(trap_pc, wake_tick, cpu.registers()),
            final(self).wf(),
    {
        self.bus.begin_write_probe();
        self.idle_cycle_probe = None;
        self.idle_cycle_last_seen = None;
        let tick: u32 = self.dispatcher.tick_count;
        let host: IdleCycleHostSnapshot = IdleCycleHostSnapshot::capture(&self.dispatcher);
        self.idle_cycle_sleep = Some(ProvenIdleCycleSleep { trap_pc, wake_tick, tick, cpu, host });
    }

    fn sleep_until(&mut self, trap_pc: u32, wake_tick: u32, cap: u32, cpu: CpuSnapshot) -> (r: bool)
        requires
            old(self).wf(),
        ensures
            old(self)@.sleeps_on(final(self)@, trap_pc, wake_tick, cap, cpu.registers(), r),
            final(self).wf(),
    {
        match self.advance_until_tick(wake_tick, Some(cap)) {
            AdvanceResult::CapHit => {
                self.park_proven_idle_cycle(trap_pc, wake_tick, cpu);
                true
            },
            _ => {
                self.cancel_idle_cycle_detector();
                false
            },
        }
    }

    fn is_quiescent(&self) -> (r: bool)
        ensures
            r == self@.quiescent(),
    {
        self.active_interrupt_callback.is_none() && self.dispatcher.key_repeat.is_none()
            && self.dispatcher.pending_launch.is_none() && !self.dispatcher.system_task_has_periodic_work()
            && self.dispatcher.peek_toolbox_event(0xFFFF).is_none()
    }

    /// Takes up a parked idle loop, the processor state being `now`: sleeps on
    /// when nothing has changed since, and lets the guest run otherwise.
    pub fn resume_idle_cycle(&mut self, tick_cap: Option<u32>, now: CpuSnapshot) -> (r: bool)
        requires
            old(self).wf(),
        ensures
            old(self)@.resumes_idle(final(self)@, tick_cap, now.registers(), r),
            final(self).wf(),
    {
        let sleep: ProvenIdleCycleSleep = match self.idle_cycle_sleep.take() {
            Some(s) => s,
            None => return false,
        };
        let memory_unchanged: bool = self.bus.finish_write_probe_unchanged();
        let cpu_unchanged: bool = sleep.cpu.is_same(&now);
        let tick_unchanged: bool = self.dispatcher.tick_count == sleep.tick && self.bus.read_long(TICKS) == sleep.tick;
        let host_unchanged: bool = sleep.host.still_holds(&self.dispatcher);
        let quiescent: bool = self.is_quiescent();
        if !memory_unchanged || !cpu_unchanged || !tick_unchanged || !host_unchanged || !quiescent {
            self.cancel_idle_cycle_detector();
            return false;
        }
        let cap: u32 = match tick_cap {
            Some(c) => c,
            None => {
                self.cancel_idle_cycle_detector();
                return false;
            },
        };
        self.sleep_until(sleep.trap_pc, sleep.wake_tick, cap, now)
    }

    /// Takes up a parked idle loop.
    pub fn try_resume_proven_idle_cycle(&mut self, tick_cap: Option<u32>) -> (r: bool)
        requires
            old(self).wf(),
        ensures
            old(self)@.may_resume_idle(final(self)@, tick_cap, r),
            final(self).wf(),
    {
        let now: CpuSnapshot = self.cpu.snapshot();
        self.resume_idle_cycle(tick_cap, now)
    }

    /// Notes the result of a trap for the loop under observation, and says
    /// whether it reported that there is no event.
    pub fn note_idle_cycle_trap_result(&mut self, opcode: u16) -> (r: bool)
        requires
            old(self).wf(),
        ensures
            r == old(self)@.null_event(opcode),
            final(self)@ == old(self)@.noted(opcode),
            final(self).wf(),
    {
        let (tool, number): (bool, u16) = canonical_trap_number(opcode);
        let sp: u32 = self.cpu.read_reg(Register::A7);
        let null_event: bool = tool && (number == 0x170 || number == 0x171) && self.bus.read_word(sp) == 0;
        if self.idle_cycle_probe.is_none() {
            return null_event;
        }
        let quiet: bool = null_event || (tool && number == 0x71) || (tool && number == 0x1B4
            && !self.dispatcher.system_task_has_periodic_work());
        if !quiet {
            self.cancel_idle_cycle_detector();
        }
        null_event
    }

    /// A loop passes `trap_pc`, the processor state being `now`: parks it until
    /// `wake_tick` once a whole turn was seen to change nothing.
    pub fn pass_idle_cycle(&mut self, trap_pc: u32, wake_tick: u32, cap: u32, now: CpuSnapshot) -> (r: bool)
        requires
            old(self).wf(),
        ensures
            old(self)@.passes_idle(final(self)@, trap_pc, wake_tick, cap, now.registers(), r),
            final(self).wf(),
    {
        let tick: u32 = self.dispatcher.tick_count;
        let probe: IdleCycleProbe = match self.idle_cycle_probe.take() {
            Some(p) => p,
            None => {
                let again: bool = match self.idle_cycle_last_seen {
                    Some((pc, t)) => pc == trap_pc && t == tick,
                    None => false,
                };
                if again {
                    self.begin_idle_cycle_probe(trap_pc, tick, now);
                } else {
                    self.idle_cycle_last_seen = Some((trap_pc, tick));
                }
                return false;
            },
        };
        let memory_unchanged: bool = self.bus.finish_write_probe_unchanged();
        let same_place: bool = probe.trap_pc == trap_pc && probe.tick == tick;
        if same_place && probe.cpu.is_same(&now) && memory_unchanged {
            self.idle_cycle_last_seen = Some((trap_pc, tick));
            if tick >= cap {
                self.park_proven_idle_cycle(trap_pc, wake_tick, now);
                return true;
            }
            return self.sleep_until(trap_pc, wake_tick, cap, now);
        }
        if same_place {
            self.begin_idle_cycle_probe(trap_pc, tick, now);
        } else {
            self.idle_cycle_last_seen = Some((trap_pc, tick));
        }
        false
    }

    /// A loop passes `trap_pc`.
    pub fn try_exact_idle_cycle_fastfwd(&mut self, trap_pc: u32, wake_tick: u32, tick_cap: Option<u32>) -> (r: bool)
        requires
            old(self).wf(),
        ensures
            tick_cap is None ==> !r && final(self)@ == old(self)@,
            tick_cap matches Some(cap) ==> old(self)@.may_pass_idle(final(self)@, trap_pc, wake_tick, cap, r),
            final(self).wf(),
    {
        let cap: u32 = match tick_cap {
            Some(c) => c,
            None => return false,
        };
        let now: CpuSnapshot = self.cpu.snapshot();
        self.pass_idle_cycle(trap_pc, wake_tick, cap, now)
    }

    /// A loop that asks for events passes `trap_pc`: it may be parked until the
    /// next tick. While another place is under observation nothing happens.
    pub fn try_exact_null_event_cycle_fastfwd(&mut self, trap_pc: u32, tick_cap: Option<u32>) -> (r: bool)
        requires
            old(self).wf(),
        ensures
            tick_cap is None || old(self)@.watches_elsewhere(trap_pc) ==> !r && final(self)@ == old(self)@,
            tick_cap matches Some(cap) ==> !old(self)@.watches_elsewhere(trap_pc) ==> old(self)@.may_pass_idle(
                final(self)@,
                trap_pc,
                old(self)@.disp.tick_count.wrapping_add(1),
                cap,
                r,
            ),
            final(self).wf(),
    {
        if let Some(probe) = &self.idle_cycle_probe {
            if probe.trap_pc != trap_pc {
                return false;
            }
        }
        let wake_tick: u32 = self.dispatcher.tick_count.wrapping_add(1);
        self.try_exact_idle_cycle_fastfwd(trap_pc, wake_tick, tick_cap)
    }
}

} // verus!

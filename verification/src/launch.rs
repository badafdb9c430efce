use vstd::prelude::*;

use crate::cpu::Register;
use crate::file_manager::FileView;
use crate::globals::{MB_STATE, TICKS, TIME};
use crate::loader::{AppView, LoadedApp};
use crate::memory::{group_memory_lengths, BusView, MacMemoryBus};
use crate::resource::{fork_resources, lemma_fork_sizes, ResourceFork, ResourceView};
use crate::runner::{fresh_runner, FixtureRunner, RunnerView};
use crate::screen::{clear_screen, screen_cleared, Screen};
use crate::text::{normal_path, normalize_path};
use crate::trap::{DispView, LaunchView, PendingLaunch, TrapDispatcher};

verus! {

broadcast use {group_memory_lengths, crate::trap::group_dispatcher_fields};

/// What the guest gets when the application to launch cannot be started: file
/// not found.
pub const FNF_ERR: u32 = 0xFFFF_FFD5;

/// Why an application could not be launched.
#[derive(Clone, Copy, Debug, PartialEq, Eq, Structural)]
pub enum LaunchError {
    /// There is no resource fork at that path.
    NoResourceFork,
    /// The resource fork cannot be read.
    BadResourceFork,
    /// The resources are not those of an application.
    NotAnApplication,
}

impl DispView {
    /// The application at `path` is to be launched, at once or when the running
    /// one asks for an event or ends.
    pub open spec fn launching(self, path: Seq<char>, waits_for_yield: bool) -> DispView {
        DispView { pending_launch: Some(LaunchView { path, waits_for_yield }), ..self }
    }

    /// The application to launch now.
    pub open spec fn launch_due(self, yielded: bool, exited: bool) -> Option<Seq<char>> {
        match self.pending_launch {
            Some(l) if !l.waits_for_yield || yielded || exited => Some(l.path),
            _ => None,
        }
    }

    /// The state at a tick with the mouse at a place, its button up or down.
    pub open spec fn carried_on(self, tick: u32, pos: (i16, i16), button: bool) -> DispView {
        DispView { tick_count: tick, mouse_pos: pos, mouse_button: button, ..self }
    }
}

/// Memory as the launched application finds it when the clock and the mouse go
/// on, with a clear screen.
#[verifier::opaque]
pub open spec fn clock_carried_on(b: BusView, tick: u32, time: u32, button: bool, screen: Screen) -> BusView {
    screen_cleared(
        b.long(TICKS, tick).long(TIME, time).byte(
            MB_STATE,
            if button {
                0
            } else {
                0x80
            },
        ),
        screen,
    )
}

fn carry_clock_on(bus: &mut MacMemoryBus, tick: u32, time: u32, button: bool, screen: &Screen)
    ensures
        final(bus)@ == clock_carried_on(old(bus)@, tick, time, button, *screen),
        old(bus).probe_wf() ==> final(bus).probe_wf(),
        final(bus)@.mem.len() == old(bus)@.mem.len(),
{
    proof {
        reveal(clock_carried_on);
    }
    bus.write_long(TICKS, tick);
    bus.write_long(TIME, time);
    bus.write_byte(MB_STATE, if button { 0 } else { 0x80 });
    clear_screen(bus, screen);
}

impl TrapDispatcher {
    /// Asks for the application at `path` to be launched.
    pub fn queue_pending_launch_application(&mut self, path: String, waits_for_yield: bool)
        ensures
            final(self)@ == old(self)@.launching(path@, waits_for_yield),
            old(self).wf() ==> final(self).wf(),
    {
        proof {
            reveal(TrapDispatcher::view);
        }
        self.pending_launch = Some(PendingLaunch { path, waits_for_yield });
    }

    /// The application to launch now; it is asked for no longer.
    pub fn take_pending_launch_application(&mut self, event_yield_reached: bool, caller_exited: bool) -> (r: Option<String>)
        ensures
            r is Some <==> old(self)@.launch_due(event_yield_reached, caller_exited) is Some,
            r is None ==> final(self)@ == old(self)@,
            r matches Some(p) ==> Some(p@) == old(self)@.launch_due(event_yield_reached, caller_exited) && final(self)@ == (
            DispView { pending_launch: None, ..old(self)@ }),
            old(self).wf() ==> final(self).wf(),
    {
        proof {
            reveal(TrapDispatcher::view);
        }
        let due: bool = match &self.pending_launch {
            Some(l) => !l.waits_for_yield || event_yield_reached || caller_exited,
            None => false,
        };
        if !due {
            return None;
        }
        match self.pending_launch.take() {
            Some(l) => Some(l.path),
            None => None,
        }
    }

    /// Takes over the volume of another Toolbox.
    fn adopt_volume(&mut self, other: &mut TrapDispatcher)
        requires
            old(self).wf(),
            old(other).wf(),
        ensures
            final(self).wf(),
            final(self)@ == (DispView {
                files: FileView { vfs: old(other)@.files.vfs, ..old(self)@.files },
                ..old(self)@
            }),
    {
        proof {
            reveal(TrapDispatcher::view);
        }
        self.files.swap_volume(&mut other.files);
    }

    /// Sets clock and mouse.
    fn carry_on(&mut self, tick: u32, pos: (i16, i16), button: bool)
        ensures
            final(self)@ == old(self)@.carried_on(tick, pos, button),
            old(self).wf() ==> final(self).wf(),
    {
        proof {
            reveal(TrapDispatcher::view);
        }
        self.tick_count = tick;
        self.mouse_pos = pos;
        self.mouse_button = button;
    }

    /// Where the mouse is, and whether its button is down.
    pub fn mouse(&self) -> (r: ((i16, i16), bool))
        ensures
            r == (self@.mouse_pos, self@.mouse_button),
    {
        proof {
            reveal(TrapDispatcher::view);
        }
        (self.mouse_pos, self.mouse_button)
    }

    /// The screen.
    pub fn screen(&self) -> (r: Screen)
        ensures
            r == self@.screen,
    {
        proof {
            reveal(TrapDispatcher::view);
        }
        self.screen
    }

    /// Keeps the menu bar off the screen, or not.
    pub fn set_menu_bar_hidden(&mut self, hidden: bool)
        ensures
            final(self)@ == (DispView {
                screen: Screen { menu_bar_hidden: hidden, ..old(self)@.screen },
                ..old(self)@
            }),
            old(self).wf() ==> final(self).wf(),
    {
        proof {
            reveal(TrapDispatcher::view);
        }
        self.screen.menu_bar_hidden = hidden;
    }

    /// The resources in the resource fork at `path`.
    fn read_resource_fork(&self, path: &str) -> (r: Result<ResourceFork, LaunchError>)
        requires
            self.wf(),
        ensures
            match r {
                Ok(f) => application_fork(self@, path@) == Ok::<Seq<ResourceView>, LaunchError>(f@),
                Err(e) => application_fork(self@, path@) == Err::<Seq<ResourceView>, LaunchError>(e),
            },
    {
        proof {
            reveal(TrapDispatcher::view);
        }
        let key: String = match self.files.find_resource_fork(path) {
            Some(k) => k,
            None => return Err(LaunchError::NoResourceFork),
        };
        match self.files.resource_fork(key.as_str()) {
            Some(bytes) => match ResourceFork::parse(bytes) {
                Some(f) => Ok(f),
                None => Err(LaunchError::BadResourceFork),
            },
            None => Err(LaunchError::NoResourceFork),
        }
    }
}

/// The resources in the resource fork that `path` means.
pub open spec fn application_fork(d: DispView, path: Seq<char>) -> Result<Seq<ResourceView>, LaunchError> {
    match d.files.vfs.resource_key(path) {
        None => Err(LaunchError::NoResourceFork),
        Some(key) => match fork_resources(d.files.vfs.resources[key]) {
            Some(rs) => Ok(rs),
            None => Err(LaunchError::BadResourceFork),
        },
    }
}

impl RunnerView {
    /// A machine of the same size and settings with nothing loaded.
    #[verifier::opaque]
    pub open spec fn blank(self) -> RunnerView {
        let fresh = fresh_runner(self.bus.ram_size() as nat, self.config);
        RunnerView {
            disp: DispView {
                screen: Screen { menu_bar_hidden: self.disp.screen.menu_bar_hidden, ..fresh.disp.screen },
                ..fresh.disp
            },
            instructions_per_tick: self.instructions_per_tick,
            tick_budget: self.instructions_per_tick as i32,
            wait_sleep_cap_in_headless: self.wait_sleep_cap_in_headless,
            app_start_time: self.app_start_time,
            application_partition_size: self.application_partition_size,
            host_clock: self.host_clock,
            total_instructions: self.total_instructions,
            ..fresh
        }
    }

    /// This machine with a loaded application about to run, at some time and with
    /// the mouse at some place.
    #[verifier::opaque]
    pub open spec fn begun(
        self,
        path: Seq<char>,
        app: AppView,
        tick: u32,
        time: u32,
        pos: (i16, i16),
        button: bool,
    ) -> RunnerView {
        let ready = RunnerView { disp: self.disp.launched_from(path), ..self }.initialized(app);
        RunnerView {
            bus: clock_carried_on(ready.bus, tick, time, button, ready.disp.screen),
            disp: ready.disp.carried_on(tick, pos, button),
            ..ready
        }
    }

    /// This machine with a loaded application from `path` of the volume of
    /// `before`, about to run: the clock, the mouse and the samples that wait for
    /// the host are those of `before`.
    pub open spec fn taken_over(self, before: RunnerView, path: Seq<char>, app: AppView) -> RunnerView {
        let files = FileView { vfs: before.disp.files.vfs, ..self.disp.files };
        RunnerView {
            audio_attached: before.audio_attached,
            host_audio: before.host_audio,
            audio_buffer: before.audio_buffer,
            ..RunnerView { disp: DispView { files, ..self.disp }, ..self }.begun(
                path,
                app,
                before.tick(),
                before.bus.get_long(TIME),
                before.disp.mouse_pos,
                before.disp.mouse_button,
            )
        }
    }

    /// The machine that runs the application at `path` in place of the present
    /// one.
    pub open spec fn switched(self, path: Seq<char>) -> Result<RunnerView, LaunchError> {
        let p = normal_path(path);
        match application_fork(self.disp, p) {
            Err(e) => Err(e),
            Ok(rs) => match self.blank().loaded(rs) {
                None => Err(LaunchError::NotAnApplication),
                Some((s, app)) => Ok(s.taken_over(self, p, app)),
            },
        }
    }

    /// The state after a launch that was asked for had its chance, and whether
    /// there was one. A launch that fails halts the machine.
    pub open spec fn launch_served(self, yielded: bool, exited: bool) -> (RunnerView, bool) {
        match self.disp.launch_due(yielded, exited) {
            None => (self, false),
            Some(path) => {
                let s = RunnerView { disp: DispView { pending_launch: None, ..self.disp }, ..self };
                match s.switched(path) {
                    Ok(t) => (t, true),
                    Err(_) => (
                        RunnerView {
                            halted: true,
                            halted_pc: Some(self.cpu.pc),
                            halted_sp: Some(self.cpu.sp()),
                            halted_d0: Some(FNF_ERR),
                            ..s
                        },
                        true,
                    ),
                }
            },
        }
    }
}

impl FixtureRunner {
    fn blank_machine(&self) -> (r: FixtureRunner)
        requires
            self.wf(),
        ensures
            r.wf(),
            r@ == self@.blank(),
    {
        proof {
            reveal(RunnerView::blank);
        }
        let mut r: FixtureRunner = FixtureRunner::new(self.bus.ram_size() as usize, self.config);
        r.dispatcher.set_menu_bar_hidden(self.dispatcher.screen().menu_bar_hidden);
        r.instructions_per_tick = self.instructions_per_tick;
        r.tick_budget = self.instructions_per_tick as i32;
        r.wait_sleep_cap_in_headless = self.wait_sleep_cap_in_headless;
        r.app_start_time = self.app_start_time;
        r.application_partition_size = self.application_partition_size;
        r.host_clock = self.host_clock;
        r.total_instructions = self.total_instructions;
        r
    }

    fn begin(&mut self, path: &str, app: &LoadedApp, tick: u32, time: u32, pos: (i16, i16), button: bool)
        requires
            old(self).wf(),
        ensures
            final(self).wf(),
            final(self)@ == old(self)@.begun(path@, app@, tick, time, pos, button),
    {
        proof {
            reveal(RunnerView::begun);
        }
        self.dispatcher.set_launched_app_path(path);
        self.init_app(app);
        let screen: Screen = self.dispatcher.screen();
        carry_clock_on(&mut self.bus, tick, time, button, &screen);
        self.dispatcher.carry_on(tick, pos, button);
    }

    /// Runs the application at `app_path` of the volume from now on, on a machine
    /// that is otherwise new.
    pub fn switch_to_launched_application(&mut self, app_path: &str) -> (r: Result<(), LaunchError>)
        requires
            old(self).wf(),
        ensures
            final(self).wf(),
            match r {
                Ok(_) => old(self)@.switched(app_path@) == Ok::<RunnerView, LaunchError>(final(self)@),
                Err(e) => old(self)@.switched(app_path@) == Err::<RunnerView, LaunchError>(e) && final(self)@ == old(
                    self,
                )@,
            },
    {
        let p: String = normalize_path(app_path);
        let fork: ResourceFork = match self.dispatcher.read_resource_fork(p.as_str()) {
            Ok(f) => f,
            Err(e) => return Err(e),
        };
        proof {
            lemma_fork_sizes(self@.disp.files.vfs.resources[self@.disp.files.vfs.resource_key(p@)->0]);
        }
        let mut next: FixtureRunner = self.blank_machine();
        let app: LoadedApp = match next.load_app(&fork) {
            Some(a) => a,
            None => return Err(LaunchError::NotAnApplication),
        };
        let tick: u32 = self.bus.read_long(TICKS);
        let time: u32 = self.bus.read_long(TIME);
        let (pos, button): ((i16, i16), bool) = self.dispatcher.mouse();
        next.dispatcher.adopt_volume(&mut self.dispatcher);
        next.begin(p.as_str(), &app, tick, time, pos, button);
        next.audio_attached = self.audio_attached;
        std::mem::swap(&mut next.host_audio, &mut self.host_audio);
        std::mem::swap(&mut next.audio_buffer, &mut self.audio_buffer);
        *self = next;
        Ok(())
    }

    /// Serves a launch that was asked for, and says whether there was one.
    pub fn service_pending_launch_application(&mut self, event_yield_reached: bool, caller_exited: bool) -> (r: bool)
        requires
            old(self).wf(),
        ensures
            final(self).wf(),
            (final(self)@, r) == old(self)@.launch_served(event_yield_reached, caller_exited),
    {
        let path: String = match self.dispatcher.take_pending_launch_application(event_yield_reached, caller_exited) {
            Some(p) => p,
            None => return false,
        };
        if self.switch_to_launched_application(path.as_str()).is_err() {
            self.halted = true;
            self.halted_pc = Some(self.cpu.read_reg(Register::PC));
            self.halted_sp = Some(self.cpu.read_reg(Register::A7));
            self.halted_d0 = Some(FNF_ERR);
        }
        true
    }
}

} // verus!

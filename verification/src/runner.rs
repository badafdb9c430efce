use vstd::prelude::*;

use crate::cpu::{CpuSnapshot, CpuView, M68kCpu};
use crate::memory::{BusView, MacMemoryBus};
use crate::shell::ShellView;
use crate::theme::{ThemeMetricsMode, UiThemeId};
use crate::trap::{DispView, TrapDispatcher};

verus! {

broadcast use crate::trap::group_dispatcher_fields;

/// Lowest start of the application heap.
pub const APP_HEAP_FLOOR: u32 = 0x0020_0000;
/// Size of the header of a heap zone.
pub const APP_ZONE_HEADER_SIZE: u32 = 64;
/// Room that stays free between heap limit and stack.
pub const APP_STACK_SAFETY_MARGIN: u32 = 0x2000;
/// Where applications are loaded unless configured otherwise.
pub const DEFAULT_LOAD_ADDRESS: u32 = 0x0001_0000;
/// Instructions per tick without realtime pacing.
pub const INSTRUCTIONS_PER_TICK: u32 = 12_000;

/// What a running callback is for.
#[derive(Clone, Copy, Debug, PartialEq, Eq, Structural)]
pub enum ActiveInterruptCallbackSource {
    Timer,
    Vbl,
    CursorTask,
    SoundCallback,
    SoundFileCompletion,
    SoundDoubleBack,
    FileCompletion,
    DialogDrawProc,
    DialogFilterProc,
    MenuHook,
}

/// A callback that interrupted the application, with the state to return to.
#[derive(Clone, Copy)]
pub struct ActiveInterruptCallback {
    pub source: ActiveInterruptCallbackSource,
    pub resume_pc: u32,
    pub resume_sp: u32,
    pub d_regs: [u32; 8],
    pub a_regs: [u32; 8],
    pub sr: u16,
    pub ccr: u8,
    pub restore_port: Option<(u32, u32)>,
}

/// A running callback as a mathematical value.
pub struct ActiveView {
    pub source: ActiveInterruptCallbackSource,
    pub resume_pc: u32,
    pub resume_sp: u32,
    pub d_regs: Seq<u32>,
    pub a_regs: Seq<u32>,
    pub sr: u16,
    pub ccr: u8,
    pub restore_port: Option<(u32, u32)>,
}

impl ActiveInterruptCallback {
    pub open spec fn view(&self) -> ActiveView {
        ActiveView {
            source: self.source,
            resume_pc: self.resume_pc,
            resume_sp: self.resume_sp,
            d_regs: self.d_regs@,
            a_regs: self.a_regs@,
            sr: self.sr,
            ccr: self.ccr,
            restore_port: self.restore_port,
        }
    }
}

/// Host input that is not in guest memory.
#[derive(Clone, Copy)]
pub struct IdleCycleHostSnapshot {
    pub mouse_pos: (i16, i16),
    pub mouse_button: bool,
    pub key_map: [u8; 16],
}

/// An idle loop under observation: where its trap stands, and the tick and the
/// processor state of its last visit.
pub struct IdleCycleProbe {
    pub trap_pc: u32,
    pub tick: u32,
    pub cpu: CpuSnapshot,
}

/// An idle loop under observation as a mathematical value.
pub struct ProbeView {
    pub trap_pc: u32,
    pub tick: u32,
    pub cpu: CpuView,
}

impl IdleCycleProbe {
    pub open spec fn view(&self) -> ProbeView {
        ProbeView { trap_pc: self.trap_pc, tick: self.tick, cpu: self.cpu.registers() }
    }
}

/// An idle loop that was shown to change nothing, parked until `wake_tick`.
pub struct ProvenIdleCycleSleep {
    pub trap_pc: u32,
    pub wake_tick: u32,
    pub tick: u32,
    pub cpu: CpuSnapshot,
    pub host: IdleCycleHostSnapshot,
}

/// A parked idle loop as a mathematical value.
pub struct SleepView {
    pub trap_pc: u32,
    pub wake_tick: u32,
    pub tick: u32,
    pub cpu: CpuView,
    pub mouse_pos: (i16, i16),
    pub mouse_button: bool,
    pub key_map: Seq<u8>,
}

impl ProvenIdleCycleSleep {
    pub open spec fn view(&self) -> SleepView {
        SleepView {
            trap_pc: self.trap_pc,
            wake_tick: self.wake_tick,
            tick: self.tick,
            cpu: self.cpu.registers(),
            mouse_pos: self.host.mouse_pos,
            mouse_button: self.host.mouse_button,
            key_map: self.host.key_map@,
        }
    }
}

/// Settings of a runner.
#[derive(Clone, Copy)]
pub struct FixtureRunnerConfig {
    /// Most instructions that `run` executes.
    pub max_instructions: usize,
    /// Where applications are loaded.
    pub load_address: u32,
    /// Arrow keys arrive as keys of the numeric keypad.
    pub arrows_as_numpad: bool,
    /// The selected look of the user interface.
    pub ui_theme: UiThemeId,
    /// Whether that look keeps the measures that applications expect.
    pub theme_metrics_mode: ThemeMetricsMode,
    /// Wait loops are skipped in every mode.
    pub spin_fastfwd_force_on: bool,
    /// Wait loops are never skipped.
    pub spin_fastfwd_force_off: bool,
}

impl Default for FixtureRunnerConfig {
    fn default() -> (r: Self)
        ensures
            r.max_instructions == 10_000_000,
            r.load_address == DEFAULT_LOAD_ADDRESS,
            !r.arrows_as_numpad,
            r.ui_theme is ClassicSystem7,
            r.theme_metrics_mode is ClassicGuestMetrics,
            !r.spin_fastfwd_force_on,
            !r.spin_fastfwd_force_off,
    {
        FixtureRunnerConfig {
            max_instructions: 10_000_000,
            load_address: DEFAULT_LOAD_ADDRESS,
            arrows_as_numpad: false,
            ui_theme: UiThemeId::ClassicSystem7,
            theme_metrics_mode: ThemeMetricsMode::ClassicGuestMetrics,
            spin_fastfwd_force_on: false,
            spin_fastfwd_force_off: false,
        }
    }
}

/// A guest machine: its processor, its memory, its Toolbox, and the clock and
/// interrupt work that drive them.
pub struct FixtureRunner {
    pub cpu: M68kCpu,
    pub bus: MacMemoryBus,
    pub dispatcher: TrapDispatcher,
    pub config: FixtureRunnerConfig,
    pub halted: bool,
    pub halted_trap: Option<u16>,
    pub halted_pc: Option<u32>,
    pub halted_sp: Option<u32>,
    pub halted_d0: Option<u32>,
    pub total_instructions: u64,
    pub instructions_per_tick: u32,
    pub wait_sleep_cap_in_headless: Option<u32>,
    /// Instructions left until the next tick.
    pub tick_budget: i32,
    pub idle_cycle_last_seen: Option<(u32, u32)>,
    pub idle_cycle_probe: Option<IdleCycleProbe>,
    pub idle_cycle_sleep: Option<ProvenIdleCycleSleep>,
    /// The tick at which a tracking trap stopped the clock.
    pub frozen_ticks: Option<u32>,
    pub timer_trampoline: u32,
    pub vbl_trampoline: u32,
    pub cursor_task_trampoline: u32,
    pub sound_doubleback_trampoline: u32,
    pub sound_callback_trampoline: u32,
    pub sound_file_completion_trampoline: u32,
    pub file_completion_trampoline: u32,
    pub dialog_draw_trampoline: u32,
    pub dialog_filter_trampoline: u32,
    pub menu_hook_trampoline: u32,
    pub dialog_filter_event: u32,
    pub dialog_filter_last_null_event_tick: Option<(u32, u32)>,
    pub dialog_filter_last_update_event_tick: Option<(u32, u32, u32)>,
    pub active_interrupt_callback: Option<ActiveInterruptCallback>,
    /// A host wants stereo samples.
    pub audio_attached: bool,
    /// Stereo samples that the host has not fetched yet.
    pub host_audio: Vec<u8>,
    /// Mono samples that nobody has fetched yet.
    pub audio_buffer: Vec<u8>,
    pub app_start_time: Option<u32>,
    pub application_partition_size: Option<u32>,
    /// The host's clock in guest seconds, as the host told it last.
    pub host_clock: u32,
}

/// A guest machine as a mathematical value.
pub struct RunnerView {
    pub cpu: CpuView,
    pub bus: BusView,
    pub disp: DispView,
    pub config: FixtureRunnerConfig,
    pub halted: bool,
    pub halted_trap: Option<u16>,
    pub halted_pc: Option<u32>,
    pub halted_sp: Option<u32>,
    pub halted_d0: Option<u32>,
    pub total_instructions: u64,
    pub instructions_per_tick: u32,
    pub wait_sleep_cap_in_headless: Option<u32>,
    pub tick_budget: i32,
    pub idle_cycle_last_seen: Option<(u32, u32)>,
    pub idle_cycle_probe: Option<ProbeView>,
    pub idle_cycle_sleep: Option<SleepView>,
    pub frozen_ticks: Option<u32>,
    pub timer_trampoline: u32,
    pub vbl_trampoline: u32,
    pub cursor_task_trampoline: u32,
    pub sound_doubleback_trampoline: u32,
    pub sound_callback_trampoline: u32,
    pub sound_file_completion_trampoline: u32,
    pub file_completion_trampoline: u32,
    pub dialog_draw_trampoline: u32,
    pub dialog_filter_trampoline: u32,
    pub menu_hook_trampoline: u32,
    pub dialog_filter_event: u32,
    pub dialog_filter_last_null_event_tick: Option<(u32, u32)>,
    pub dialog_filter_last_update_event_tick: Option<(u32, u32, u32)>,
    pub active: Option<ActiveView>,
    pub audio_attached: bool,
    pub host_audio: Seq<u8>,
    pub audio_buffer: Seq<u8>,
    pub app_start_time: Option<u32>,
    pub application_partition_size: Option<u32>,
    pub host_clock: u32,
}

/// Bytes of low memory that the runner relies on.
pub const LOW_MEMORY_SIZE: usize = 0x1000;

impl FixtureRunner {
    pub open spec fn view(&self) -> RunnerView {
        RunnerView {
            cpu: self.cpu@,
            bus: self.bus@,
            disp: self.dispatcher@,
            config: self.config,
            halted: self.halted,
            halted_trap: self.halted_trap,
            halted_pc: self.halted_pc,
            halted_sp: self.halted_sp,
            halted_d0: self.halted_d0,
            total_instructions: self.total_instructions,
            instructions_per_tick: self.instructions_per_tick,
            wait_sleep_cap_in_headless: self.wait_sleep_cap_in_headless,
            tick_budget: self.tick_budget,
            idle_cycle_last_seen: self.idle_cycle_last_seen,
            idle_cycle_probe: match self.idle_cycle_probe {
                Some(p) => Some(p@),
                None => None,
            },
            idle_cycle_sleep: match self.idle_cycle_sleep {
                Some(p) => Some(p@),
                None => None,
            },
            frozen_ticks: self.frozen_ticks,
            timer_trampoline: self.timer_trampoline,
            vbl_trampoline: self.vbl_trampoline,
            cursor_task_trampoline: self.cursor_task_trampoline,
            sound_doubleback_trampoline: self.sound_doubleback_trampoline,
            sound_callback_trampoline: self.sound_callback_trampoline,
            sound_file_completion_trampoline: self.sound_file_completion_trampoline,
            file_completion_trampoline: self.file_completion_trampoline,
            dialog_draw_trampoline: self.dialog_draw_trampoline,
            dialog_filter_trampoline: self.dialog_filter_trampoline,
            menu_hook_trampoline: self.menu_hook_trampoline,
            dialog_filter_event: self.dialog_filter_event,
            dialog_filter_last_null_event_tick: self.dialog_filter_last_null_event_tick,
            dialog_filter_last_update_event_tick: self.dialog_filter_last_update_event_tick,
            active: match self.active_interrupt_callback {
                Some(a) => Some(a@),
                None => None,
            },
            audio_attached: self.audio_attached,
            host_audio: self.host_audio@,
            audio_buffer: self.audio_buffer@,
            app_start_time: self.app_start_time,
            application_partition_size: self.application_partition_size,
            host_clock: self.host_clock,
        }
    }

    /// Low memory exists, the address range covers RAM, the write record is
    /// accurate, and a tick takes some instructions.
    pub open spec fn wf(&self) -> bool {
        &&& self.bus.wf()
        &&& self.dispatcher.wf()
        &&& self@.sane()
    }
}

impl RunnerView {
    pub open spec fn sane(self) -> bool {
        &&& self.bus.mem.len() <= 0x1_0000_0000
        &&& self.cpu.dar.len() == 16
        &&& 1 <= self.instructions_per_tick <= 0x7fff_ffff
        &&& self.disp.trap_histogram.len() == crate::trap::TRAP_SLOTS
        &&& self.disp.inline_skipped.len() == crate::trap::TRAP_SLOTS
        &&& self.disp.key_map.len() == 16
    }

    /// The tick that the guest sees.
    pub open spec fn tick(self) -> u32 {
        self.bus.get_long(crate::globals::TICKS)
    }
}

impl FixtureRunner {
    /// A machine with `ram_size` bytes of RAM, nothing loaded.
    pub fn new(ram_size: usize, config: FixtureRunnerConfig) -> (r: Self)
        requires
            ram_size <= 0x1_0000_0000,
        ensures
            r@ == fresh_runner(ram_size as nat, config),
            r.wf(),
    {
        let cpu = M68kCpu::new();
        proof {
            cpu.lemma_register_count();
        }
        let mut dispatcher: TrapDispatcher = TrapDispatcher::new();
        dispatcher.set_ui_theme_id(config.ui_theme);
        FixtureRunner {
            cpu,
            bus: MacMemoryBus::new(ram_size),
            dispatcher,
            config,
            halted: false,
            halted_trap: None,
            halted_pc: None,
            halted_sp: None,
            halted_d0: None,
            total_instructions: 0,
            instructions_per_tick: INSTRUCTIONS_PER_TICK,
            wait_sleep_cap_in_headless: None,
            tick_budget: INSTRUCTIONS_PER_TICK as i32,
            idle_cycle_last_seen: None,
            idle_cycle_probe: None,
            idle_cycle_sleep: None,
            frozen_ticks: None,
            timer_trampoline: 0,
            vbl_trampoline: 0,
            cursor_task_trampoline: 0,
            sound_doubleback_trampoline: 0,
            sound_callback_trampoline: 0,
            sound_file_completion_trampoline: 0,
            file_completion_trampoline: 0,
            dialog_draw_trampoline: 0,
            dialog_filter_trampoline: 0,
            menu_hook_trampoline: 0,
            dialog_filter_event: 0,
            dialog_filter_last_null_event_tick: None,
            dialog_filter_last_update_event_tick: None,
            active_interrupt_callback: None,
            audio_attached: false,
            host_audio: Vec::new(),
            audio_buffer: Vec::new(),
            app_start_time: None,
            application_partition_size: None,
            host_clock: 0,
        }
    }
}

/// The registers after power-on.
pub open spec fn fresh_cpu() -> CpuView {
    CpuView { dar: Seq::new(16, |i: int| 0u32), pc: 0, ppc: 0, ir: 0, sr: 0x2700, stopped: 0, core: crate::cpu::fresh_core() }
}

/// A machine with nothing loaded.
pub open spec fn fresh_runner(ram_size: nat, config: FixtureRunnerConfig) -> RunnerView {
    RunnerView {
        cpu: fresh_cpu(),
        bus: crate::memory::fresh_bus(ram_size),
        disp: DispView {
            shell: ShellView { ui_theme: config.ui_theme, ..crate::shell::fresh_shell() },
            ..crate::trap::fresh_dispatcher()
        },
        config,
        halted: false,
        halted_trap: None,
        halted_pc: None,
        halted_sp: None,
        halted_d0: None,
        total_instructions: 0,
        instructions_per_tick: INSTRUCTIONS_PER_TICK,
        wait_sleep_cap_in_headless: None,
        tick_budget: 12_000,
        idle_cycle_last_seen: None,
        idle_cycle_probe: None,
        idle_cycle_sleep: None,
        frozen_ticks: None,
        timer_trampoline: 0,
        vbl_trampoline: 0,
        cursor_task_trampoline: 0,
        sound_doubleback_trampoline: 0,
        sound_callback_trampoline: 0,
        sound_file_completion_trampoline: 0,
        file_completion_trampoline: 0,
        dialog_draw_trampoline: 0,
        dialog_filter_trampoline: 0,
        menu_hook_trampoline: 0,
        dialog_filter_event: 0,
        dialog_filter_last_null_event_tick: None,
        dialog_filter_last_update_event_tick: None,
        active: None,
        audio_attached: false,
        host_audio: Seq::empty(),
        audio_buffer: Seq::empty(),
        app_start_time: None,
        application_partition_size: None,
        host_clock: 0,
    }
}

} // verus!

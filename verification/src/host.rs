use vstd::prelude::*;

use crate::cpu::M68kCpu;
use crate::globals::{KEY_MAP_LM, MB_STATE, MBAR_HEIGHT, MOUSE, M_TEMP, RAW_MOUSE, TICKS};
use crate::memory::{group_memory_lengths, BusView, MacMemoryBus};
use crate::runner::{FixtureRunner, RunnerView};
use crate::menus::{menu_views, GuestMenuSnapshot};
use crate::screen::Screen;
use crate::theme::{ThemeMetricsMode, UiTheme, UiThemeId};
use crate::shell::{chrome_views, ChromePart, CursorImage, ShellView, TrapAnswer};
use crate::trap::{with_key, DispView, GuestWindow, TrapDispatcher};
use crate::traps::TRAP_EXIT_TO_SHELL;

verus! {

broadcast use {group_memory_lengths, crate::trap::group_dispatcher_fields};

/// The smallest partition that can be asked for.
pub const LEAST_PARTITION: u32 = 0x0002_0000;

/// The state of the machine for a display beside the guest's screen, with what the
/// host has measured of its frames.
#[derive(Debug, PartialEq, Eq)]
pub struct DebugOverlaySnapshot<T> {
    pub frame_stats: T,
    pub guest_tick: u32,
    pub total_instructions: u64,
    pub trap_count: u64,
    pub game_trap_count: u64,
    pub cursor_visible: bool,
    pub cursor_level: i16,
    pub cursor_data_present: bool,
    pub cursor_mask_nonzero_bytes: Option<usize>,
    pub cursor_hotspot: Option<(i16, i16)>,
    pub cursor_position: (i16, i16),
    pub mouse_button: bool,
    pub fullscreen_locked: bool,
    pub mbar_height: u16,
    pub screen_width: u16,
    pub screen_height: u16,
    pub pixel_size: u16,
    pub front_window: u32,
    pub window_bounds: (i16, i16, i16, i16),
    pub window_count: usize,
    pub menu_count: usize,
    pub halted: bool,
    pub halted_trap: Option<u16>,
    pub halted_pc: Option<u32>,
}

/// The position of the frontmost visible window.
pub open spec fn front_position(windows: Seq<GuestWindow>, from: int) -> Option<int>
    decreases windows.len() - from,
{
    if from < 0 || from >= windows.len() {
        None
    } else if windows[from].visible {
        Some(from)
    } else {
        front_position(windows, from + 1)
    }
}

/// How many of the first `n` bytes are not zero.
pub open spec fn nonzero_bytes(bytes: Seq<u8>, n: nat) -> nat
    decreases n,
{
    if n == 0 {
        0
    } else {
        nonzero_bytes(bytes, (n - 1) as nat) + if bytes[n - 1] != 0 { 1nat } else { 0nat }
    }
}

fn count_nonzero_bytes(bytes: &[u8; 32]) -> (r: usize)
    ensures
        r == nonzero_bytes(bytes@, 32),
{
    let mut n: usize = 0;
    let mut i: usize = 0;
    while i < 32
        invariant
            i <= 32,
            n <= i,
            n == nonzero_bytes(bytes@, i as nat),
        decreases 32 - i,
    {
        if bytes[i] != 0 {
            n += 1;
        }
        i += 1;
    }
    n
}

impl DispView {
    /// The frontmost visible window and its bounds; 0 and an empty rectangle
    /// without one.
    pub open spec fn front(self) -> (u32, (i16, i16, i16, i16)) {
        match front_position(self.windows, 0) {
            Some(i) => (self.windows[i].ptr, self.windows[i].bounds),
            None => (0, (0, 0, 0, 0)),
        }
    }
}

/// Memory where the guest reads the mouse position.
#[verifier::opaque]
pub open spec fn with_mouse(b: BusView, v: i16, h: i16) -> BusView {
    b.word(M_TEMP, v as u16).word((M_TEMP + 2) as u32, h as u16).word(RAW_MOUSE, v as u16).word(
        (RAW_MOUSE + 2) as u32,
        h as u16,
    ).word(MOUSE, v as u16).word((MOUSE + 2) as u32, h as u16)
}

fn write_mouse(bus: &mut MacMemoryBus, v: i16, h: i16)
    ensures
        final(bus)@ == with_mouse(old(bus)@, v, h),
        old(bus).probe_wf() ==> final(bus).probe_wf(),
        final(bus)@.mem.len() == old(bus)@.mem.len(),
{
    proof {
        reveal(with_mouse);
    }
    bus.write_word(M_TEMP, v as u16);
    bus.write_word(M_TEMP + 2, h as u16);
    bus.write_word(RAW_MOUSE, v as u16);
    bus.write_word(RAW_MOUSE + 2, h as u16);
    bus.write_word(MOUSE, v as u16);
    bus.write_word(MOUSE + 2, h as u16);
}

/// The key and the character that a key press counts as: with `numpad`, the arrow
/// keys are keys of the numeric keypad.
pub open spec fn remapped(numpad: bool, key: u8, char_code: u8) -> (u8, u8) {
    if !numpad {
        (key, char_code)
    } else if key == 0x7B {
        (0x56, 0x34)
    } else if key == 0x7C {
        (0x58, 0x36)
    } else if key == 0x7D {
        (0x57, 0x35)
    } else if key == 0x7E {
        (0x5B, 0x38)
    } else {
        (key, char_code)
    }
}

/// The tick budget `left` at a rate of `old_rate` instructions per tick, at the
/// rate `new_rate`: the same share of a tick, toward zero.
pub open spec fn rescaled(left: i32, old_rate: u32, new_rate: u32) -> i32 {
    if left >= 0 {
        (left * new_rate / old_rate as int) as i32
    } else {
        -((-left) * new_rate / old_rate as int) as i32
    }
}

fn rescale(left: i32, old_rate: u32, new_rate: u32) -> (r: i32)
    requires
        1 <= old_rate <= 0x7fff_ffff,
        1 <= new_rate <= 0x7fff_ffff,
    ensures
        r == rescaled(left, old_rate, new_rate),
{
    let size: u64 = if left >= 0 { left as u64 } else { (-(left as i64)) as u64 };
    proof {
        assert(size * new_rate <= 0x8000_0000 * 0x7fff_ffff) by (nonlinear_arith)
            requires
                size <= 0x8000_0000,
                new_rate <= 0x7fff_ffff,
        ;
    }
    let scaled: u64 = size * new_rate as u64 / old_rate as u64;
    if left >= 0 {
        scaled as i32
    } else {
        (-(scaled as i64)) as i32
    }
}

impl RunnerView {
    /// Input was offered to the guest: a sleeper may wake, and there are
    /// instructions to run.
    #[verifier::opaque]
    pub open spec fn input_offered(self) -> RunnerView {
        self.woken_by_input().0.foreground_refilled()
    }

    /// The state after the mouse was moved. A sleeper without an event for it is
    /// woken with a null event.
    #[verifier::opaque]
    pub open spec fn mouse_moved(self, v: i16, h: i16) -> RunnerView {
        let s = RunnerView {
            disp: DispView { mouse_pos: (v, h), ..self.disp },
            bus: with_mouse(self.bus, v, h),
            ..self
        };
        let (t, woke) = s.woken_by_input();
        if woke {
            t.foreground_refilled()
        } else {
            t.woken_by_polling().0.foreground_refilled()
        }
    }

    /// The state after the mouse button was pressed or released at a point.
    #[verifier::opaque]
    pub open spec fn mouse_clicked(self, v: i16, h: i16, down: bool) -> RunnerView {
        let moved = DispView { mouse_pos: (v, h), mouse_button: down, ..self.disp };
        let what = if down {
            crate::events::MOUSE_DOWN
        } else {
            crate::events::MOUSE_UP
        };
        RunnerView {
            disp: DispView { event_queue: moved.event_queue.push(moved.event_here(what, 0)), ..moved },
            bus: with_mouse(
                self.bus.byte(
                    MB_STATE,
                    if down {
                        0
                    } else {
                        0x80
                    },
                ),
                v,
                h,
            ),
            ..self
        }.input_offered()
    }

    /// The state after a key was pressed or released.
    #[verifier::opaque]
    pub open spec fn key_pressed(self, key: u8, char_code: u8, down: bool) -> RunnerView {
        let (k, c) = remapped(self.config.arrows_as_numpad, key, char_code);
        let disp = with_key(self.disp, k, c, down);
        RunnerView { disp, bus: self.bus.bytes(KEY_MAP_LM, disp.key_map), ..self }.input_offered()
    }
}

impl TrapDispatcher {
    fn front_window(&self) -> (r: (u32, (i16, i16, i16, i16)))
        ensures
            r == self@.front(),
    {
        proof {
            reveal(TrapDispatcher::view);
        }
        let mut i: usize = 0;
        while i < self.windows.len()
            invariant
                i <= self.windows.len(),
                self@.windows == self.windows@,
                front_position(self@.windows, 0) == front_position(self@.windows, i as int),
            decreases self.windows.len() - i,
        {
            if self.windows[i].visible {
                return (self.windows[i].ptr, self.windows[i].bounds);
            }
            i += 1;
        }
        (0, (0, 0, 0, 0))
    }

    fn counters(&self) -> (r: (u64, u64, usize))
        ensures
            r.0 == self@.trap_count,
            r.1 == self@.game_trap_count,
            r.2 == self@.windows.len(),
    {
        proof {
            reveal(TrapDispatcher::view);
        }
        (self.trap_count, self.game_trap_count, self.windows.len())
    }
}

impl FixtureRunner {
    /// Whether the machine has halted.
    pub fn is_halted(&self) -> (r: bool)
        ensures
            r == self@.halted,
    {
        self.halted
    }

    /// Whether the machine has halted because the application has ended.
    pub fn halted_by_exit_to_shell(&self) -> (r: bool)
        ensures
            r == (self@.halted && self@.halted_trap == Some(TRAP_EXIT_TO_SHELL)),
    {
        self.halted && match self.halted_trap {
            Some(t) => t == TRAP_EXIT_TO_SHELL,
            None => false,
        }
    }

    /// The tick that the guest sees.
    pub fn guest_tick(&self) -> (r: u32)
        ensures
            r == self@.tick(),
    {
        self.bus.read_long(TICKS)
    }

    /// The trap that halted the machine.
    pub fn halted_trap(&self) -> (r: Option<u16>)
        ensures
            r == self@.halted_trap,
    {
        self.halted_trap
    }

    /// Where the machine has halted.
    pub fn halted_pc(&self) -> (r: Option<u32>)
        ensures
            r == self@.halted_pc,
    {
        self.halted_pc
    }

    /// The stack pointer when the machine halted.
    pub fn halted_sp(&self) -> (r: Option<u32>)
        ensures
            r == self@.halted_sp,
    {
        self.halted_sp
    }

    /// The word on top of the stack when the machine halted.
    pub fn halted_stack_word0(&self) -> (r: Option<u16>)
        ensures
            r == match self@.halted_sp {
                Some(sp) => Some(self@.bus.get_word(sp)),
                None => None,
            },
    {
        match self.halted_sp {
            Some(sp) => Some(self.bus.read_word(sp)),
            None => None,
        }
    }

    /// A word of the stack when the machine halted, counted from its top.
    pub fn halted_stack_word(&self, word_index: u32) -> (r: Option<u16>)
        ensures
            r == match self@.halted_sp {
                Some(sp) => Some(
                    self@.bus.get_word(
                        sp.wrapping_add(
                            if word_index > 0x7FFF_FFFF {
                                u32::MAX
                            } else {
                                (word_index * 2) as u32
                            },
                        ),
                    ),
                ),
                None => None,
            },
    {
        let offset: u32 = if word_index > 0x7FFF_FFFF { u32::MAX } else { word_index * 2 };
        match self.halted_sp {
            Some(sp) => Some(self.bus.read_word(sp.wrapping_add(offset))),
            None => None,
        }
    }

    /// D0 when the machine halted.
    pub fn halted_d0(&self) -> (r: Option<u32>)
        ensures
            r == self@.halted_d0,
    {
        self.halted_d0
    }

    /// Instructions executed since the machine was made.
    pub fn total_instructions(&self) -> (r: u64)
        ensures
            r == self@.total_instructions,
    {
        self.total_instructions
    }

    /// The state of the machine for a display beside the guest's screen.
    pub fn debug_overlay_snapshot<T>(&self, frame_stats: T) -> (r: DebugOverlaySnapshot<T>)
        ensures
            ({
                let d = self@.disp;
                r == DebugOverlaySnapshot {
                    frame_stats,
                    guest_tick: self@.tick(),
                    total_instructions: self@.total_instructions,
                    trap_count: d.trap_count,
                    game_trap_count: d.game_trap_count,
                    cursor_visible: d.cursor_level >= 0,
                    cursor_level: d.cursor_level,
                    cursor_data_present: d.shell.cursor_image is Some,
                    cursor_mask_nonzero_bytes: match d.shell.cursor_image {
                        Some(c) => Some(nonzero_bytes(c.mask@, 32) as usize),
                        None => None,
                    },
                    cursor_hotspot: match d.shell.cursor_image {
                        Some(c) => Some((c.hot_v, c.hot_h)),
                        None => None,
                    },
                    cursor_position: d.mouse_pos,
                    mouse_button: d.mouse_button,
                    fullscreen_locked: d.shell.fullscreen_locked,
                    mbar_height: self@.bus.get_word(MBAR_HEIGHT),
                    screen_width: d.screen.width,
                    screen_height: d.screen.height,
                    pixel_size: d.screen.pixel_size,
                    front_window: d.front().0,
                    window_bounds: d.front().1,
                    window_count: d.windows.len() as usize,
                    menu_count: d.shell.menus.len() as usize,
                    halted: self@.halted,
                    halted_trap: self@.halted_trap,
                    halted_pc: self@.halted_pc,
                }
            }),
    {
        let (trap_count, game_trap_count, window_count): (u64, u64, usize) = self.dispatcher.counters();
        let (front_window, window_bounds): (u32, (i16, i16, i16, i16)) = self.dispatcher.front_window();
        let (cursor_position, mouse_button): ((i16, i16), bool) = self.dispatcher.mouse();
        let screen: Screen = self.dispatcher.screen();
        let cursor: Option<CursorImage> = self.dispatcher.cursor_data();
        DebugOverlaySnapshot {
            frame_stats,
            guest_tick: self.bus.read_long(TICKS),
            total_instructions: self.total_instructions,
            trap_count,
            game_trap_count,
            cursor_visible: self.dispatcher.cursor_visible(),
            cursor_level: self.dispatcher.cursor_level(),
            cursor_data_present: cursor.is_some(),
            cursor_mask_nonzero_bytes: match cursor {
                Some(c) => Some(count_nonzero_bytes(&c.mask)),
                None => None,
            },
            cursor_hotspot: match cursor {
                Some(c) => Some((c.hot_v, c.hot_h)),
                None => None,
            },
            cursor_position,
            mouse_button,
            fullscreen_locked: self.dispatcher.is_fullscreen_locked(),
            mbar_height: self.bus.read_word(MBAR_HEIGHT),
            screen_width: screen.width,
            screen_height: screen.height,
            pixel_size: screen.pixel_size,
            front_window,
            window_bounds,
            window_count,
            menu_count: self.dispatcher.menu_count(),
            halted: self.halted,
            halted_trap: self.halted_trap,
            halted_pc: self.halted_pc,
        }
    }

    /// The processor.
    pub fn cpu(&self) -> (r: &M68kCpu)
        ensures
            *r == self.cpu,
    {
        &self.cpu
    }

    /// The processor, to change it.
    pub fn cpu_mut(&mut self) -> (r: &mut M68kCpu)
        ensures
            *r == old(self).cpu,
            *final(self) == (FixtureRunner { cpu: *final(r), ..*old(self) }),
    {
        &mut self.cpu
    }

    /// Memory.
    pub fn bus(&self) -> (r: &MacMemoryBus)
        ensures
            *r == self.bus,
    {
        &self.bus
    }

    /// Memory, to change it.
    pub fn bus_mut(&mut self) -> (r: &mut MacMemoryBus)
        ensures
            *r == old(self).bus,
            *final(self) == (FixtureRunner { bus: *final(r), ..*old(self) }),
    {
        &mut self.bus
    }

    /// The Toolbox.
    pub fn dispatcher(&self) -> (r: &TrapDispatcher)
        ensures
            *r == self.dispatcher,
    {
        &self.dispatcher
    }

    /// The Toolbox, to change it.
    pub fn dispatcher_mut(&mut self) -> (r: &mut TrapDispatcher)
        ensures
            *r == old(self).dispatcher,
            *final(self) == (FixtureRunner { dispatcher: *final(r), ..*old(self) }),
    {
        &mut self.dispatcher
    }

    /// The selected look, with its measures and colours.
    pub fn ui_theme(&self) -> (r: UiTheme)
        ensures
            r.id == self@.config.ui_theme,
    {
        self.config.ui_theme.provider()
    }

    /// The selected look.
    pub fn ui_theme_id(&self) -> (r: UiThemeId)
        ensures
            r == self@.config.ui_theme,
    {
        self.config.ui_theme
    }

    /// Whether the look keeps the measures that applications expect.
    pub fn theme_metrics_mode(&self) -> (r: ThemeMetricsMode)
        ensures
            r == self@.config.theme_metrics_mode,
    {
        self.config.theme_metrics_mode
    }

    /// Whether applications see the classic measures.
    pub fn uses_classic_guest_metrics(&self) -> (r: bool)
        ensures
            r == (self@.config.theme_metrics_mode is ClassicGuestMetrics),
    {
        self.config.theme_metrics_mode.preserves_classic_guest_metrics()
    }

    /// Shows the menu bar or keeps it off the screen, where it is at first.
    pub fn set_menu_bar_visible(&mut self, visible: bool)
        ensures
            final(self)@ == (RunnerView {
                disp: DispView {
                    screen: Screen { menu_bar_hidden: !visible, ..old(self)@.disp.screen },
                    ..old(self)@.disp
                },
                ..old(self)@
            }),
            old(self).wf() ==> final(self).wf(),
    {
        self.dispatcher.set_menu_bar_hidden(!visible);
    }

    /// Whether the menu bar is shown.
    pub fn menu_bar_visible(&self) -> (r: bool)
        ensures
            r == !self@.disp.screen.menu_bar_hidden,
    {
        !self.dispatcher.screen().menu_bar_hidden
    }

    /// Sets the guest time at launch.
    pub fn set_app_start_time(&mut self, secs: u32)
        ensures
            final(self)@ == (RunnerView { app_start_time: Some(secs), ..old(self)@ }),
            old(self).wf() ==> final(self).wf(),
    {
        self.app_start_time = Some(secs);
    }

    /// Sets the memory that an application gets; too little counts as unset.
    pub fn set_application_partition_size(&mut self, bytes: Option<u32>)
        ensures
            final(self)@ == (RunnerView {
                application_partition_size: match bytes {
                    Some(n) if n >= LEAST_PARTITION => Some(n),
                    _ => None,
                },
                ..old(self)@
            }),
            old(self).wf() ==> final(self).wf(),
    {
        self.application_partition_size = match bytes {
            Some(n) => if n >= LEAST_PARTITION { Some(n) } else { None },
            None => None,
        };
    }

    /// The guest time at launch, if it was set.
    pub fn app_start_time(&self) -> (r: Option<u32>)
        ensures
            r == self@.app_start_time,
    {
        self.app_start_time
    }

    /// The memory that an application gets, if it was set.
    pub fn application_partition_size(&self) -> (r: Option<u32>)
        ensures
            r == self@.application_partition_size,
    {
        self.application_partition_size
    }

    /// Lets the arrow keys arrive as keys of the numeric keypad, or not.
    pub fn set_arrows_as_numpad(&mut self, enabled: bool)
        ensures
            final(self)@ == (RunnerView {
                config: crate::runner::FixtureRunnerConfig { arrows_as_numpad: enabled, ..old(self)@.config },
                ..old(self)@
            }),
            old(self).wf() ==> final(self).wf(),
    {
        self.config.arrows_as_numpad = enabled;
    }

    /// Whether the arrow keys arrive as keys of the numeric keypad.
    pub fn arrows_as_numpad(&self) -> (r: bool)
        ensures
            r == self@.config.arrows_as_numpad,
    {
        self.config.arrows_as_numpad
    }

    fn offer_input(&mut self)
        requires
            old(self).wf(),
        ensures
            final(self).wf(),
            final(self)@ == old(self)@.input_offered(),
    {
        proof {
            reveal(RunnerView::input_offered);
        }
        self.wake_pending_wait_next_event_if_input_available();
        self.refill_foreground_budget_after_async_return();
    }

    /// Moves the mouse.
    pub fn set_mouse_position(&mut self, v: i16, h: i16)
        requires
            old(self).wf(),
        ensures
            final(self).wf(),
            final(self)@ == old(self)@.mouse_moved(v, h),
    {
        proof {
            reveal(RunnerView::mouse_moved);
        }
        self.dispatcher.set_mouse_position(v, h);
        write_mouse(&mut self.bus, v, h);
        if !self.wake_pending_wait_next_event_if_input_available() {
            self.wake_pending_wait_next_event_with_null_event_for_polling_input();
        }
        self.refill_foreground_budget_after_async_return();
    }

    /// Presses the mouse button at a point.
    pub fn push_mouse_down(&mut self, v: i16, h: i16)
        requires
            old(self).wf(),
        ensures
            final(self).wf(),
            final(self)@ == old(self)@.mouse_clicked(v, h, true),
    {
        proof {
            reveal(RunnerView::mouse_clicked);
        }
        self.dispatcher.push_mouse_down(v, h);
        self.bus.write_byte(MB_STATE, 0);
        write_mouse(&mut self.bus, v, h);
        self.offer_input();
    }

    /// Releases the mouse button at a point.
    pub fn push_mouse_up(&mut self, v: i16, h: i16)
        requires
            old(self).wf(),
        ensures
            final(self).wf(),
            final(self)@ == old(self)@.mouse_clicked(v, h, false),
    {
        proof {
            reveal(RunnerView::mouse_clicked);
        }
        self.dispatcher.push_mouse_up(v, h);
        self.bus.write_byte(MB_STATE, 0x80);
        write_mouse(&mut self.bus, v, h);
        self.offer_input();
    }

    /// The menus of the application, from left to right.
    pub fn guest_menu_snapshot(&self) -> (r: GuestMenuSnapshot)
        ensures
            menu_views(r.menus@) == self@.disp.shell.menus,
    {
        self.dispatcher.guest_menu_snapshot()
    }

    /// Lets the application see the choice of a menu item, and says whether the item
    /// is there to be chosen.
    pub fn select_guest_menu_item(&mut self, menu_id: i16, item_number: i16) -> (r: bool)
        requires
            old(self).wf(),
        ensures
            final(self).wf(),
            match old(self)@.disp.menu_choice(menu_id, item_number) {
                Some(e) => r && final(self)@ == (RunnerView {
                    disp: DispView { shell: ShellView { native_menu_event: Some(e), ..old(self)@.disp.shell }, ..old(self)@.disp },
                    ..old(self)@
                }).input_offered(),
                None => !r && final(self)@ == old(self)@,
            },
    {
        if self.dispatcher.queue_native_menu_selection(menu_id, item_number).is_none() {
            return false;
        }
        self.offer_input();
        true
    }

    /// Draws the menu bar, the window frames and the modal dialog again over what the
    /// application drew there.
    pub fn composite_frame(&mut self)
        requires
            old(self).wf(),
        ensures
            final(self)@ == (RunnerView { bus: old(self)@.disp.redrawn(old(self)@.bus), ..old(self)@ }),
            final(self).wf(),
    {
        self.dispatcher.redraw_chrome(&mut self.bus);
    }

    /// Sets how the menu bar, the window frames and the modal dialog look.
    pub fn set_chrome(&mut self, parts: Vec<ChromePart>)
        ensures
            final(self)@ == (RunnerView {
                disp: DispView {
                    shell: ShellView { chrome: chrome_views(parts@), ..old(self)@.disp.shell },
                    ..old(self)@.disp
                },
                ..old(self)@
            }),
            old(self).wf() ==> final(self).wf(),
    {
        self.dispatcher.set_chrome(parts);
    }

    /// Sets the colours that the application shows.
    pub fn install_application_clut(&mut self, clut: [[u16; 3]; 256])
        ensures
            final(self)@ == (RunnerView {
                disp: DispView { shell: ShellView { application_clut: Some(clut), ..old(self)@.disp.shell }, ..old(self)@.disp },
                ..old(self)@
            }),
            old(self).wf() ==> final(self).wf(),
    {
        self.dispatcher.install_application_clut(clut);
    }

    /// Answers a trap that nothing here serves from now on.
    pub fn answer_trap(&mut self, answer: TrapAnswer)
        ensures
            final(self)@ == (RunnerView {
                disp: DispView { shell: ShellView { trap_answers: old(self)@.disp.shell.trap_answers.push(answer), ..old(self)@.disp.shell }, ..old(self)@.disp },
                ..old(self)@
            }),
            old(self).wf() ==> final(self).wf(),
    {
        self.dispatcher.answer_trap(answer);
    }

    /// The key and the character that the guest sees for a key of the host.
    pub fn remap_key(&self, mac_key: u8, char_code: u8) -> (r: (u8, u8))
        ensures
            r == remapped(self@.config.arrows_as_numpad, mac_key, char_code),
    {
        if !self.config.arrows_as_numpad {
            return (mac_key, char_code);
        }
        match mac_key {
            0x7B => (0x56, 0x34),
            0x7C => (0x58, 0x36),
            0x7D => (0x57, 0x35),
            0x7E => (0x5B, 0x38),
            _ => (mac_key, char_code),
        }
    }

    fn sync_key_map_lowmem(&mut self)
        requires
            old(self).wf(),
        ensures
            final(self).wf(),
            final(self)@ == (RunnerView {
                bus: old(self)@.bus.bytes(KEY_MAP_LM, old(self)@.disp.key_map),
                ..old(self)@
            }),
    {
        let keys: [u8; 16] = self.dispatcher.keys();
        self.bus.write_bytes(KEY_MAP_LM, keys.as_slice());
    }

    /// Presses a key.
    pub fn push_key_down(&mut self, mac_key: u8, char_code: u8)
        requires
            old(self).wf(),
        ensures
            final(self).wf(),
            final(self)@ == old(self)@.key_pressed(mac_key, char_code, true),
    {
        proof {
            reveal(RunnerView::key_pressed);
        }
        let (key, code): (u8, u8) = self.remap_key(mac_key, char_code);
        self.dispatcher.push_key_down(key, code);
        self.sync_key_map_lowmem();
        self.offer_input();
    }

    /// Releases a key.
    pub fn push_key_up(&mut self, mac_key: u8, char_code: u8)
        requires
            old(self).wf(),
        ensures
            final(self).wf(),
            final(self)@ == old(self)@.key_pressed(mac_key, char_code, false),
    {
        proof {
            reveal(RunnerView::key_pressed);
        }
        let (key, code): (u8, u8) = self.remap_key(mac_key, char_code);
        self.dispatcher.push_key_up(key, code);
        self.sync_key_map_lowmem();
        self.offer_input();
    }

    /// Lets mixed stereo samples wait for the host from now on.
    pub fn set_audio(&mut self)
        ensures
            final(self)@ == (RunnerView { audio_attached: true, ..old(self)@ }),
            old(self).wf() ==> final(self).wf(),
    {
        self.audio_attached = true;
    }

    /// The stereo samples that wait for the host; none are left.
    pub fn take_host_audio(&mut self) -> (r: Vec<u8>)
        ensures
            r@ == old(self)@.host_audio,
            final(self)@ == (RunnerView { host_audio: Seq::empty(), ..old(self)@ }),
            old(self).wf() ==> final(self).wf(),
    {
        let mut out: Vec<u8> = Vec::new();
        std::mem::swap(&mut out, &mut self.host_audio);
        out
    }

    /// Sets how many instructions a tick takes, at least one. What is left of the
    /// present tick stays the same share of it.
    pub fn set_instructions_per_tick(&mut self, instructions_per_tick: u32)
        requires
            old(self).wf(),
            instructions_per_tick <= 0x7fff_ffff,
        ensures
            final(self).wf(),
            ({
                let rate: u32 = if instructions_per_tick == 0 {
                    1
                } else {
                    instructions_per_tick
                };
                final(self)@ == (RunnerView {
                    instructions_per_tick: rate,
                    tick_budget: rescaled(old(self)@.tick_budget, old(self)@.instructions_per_tick, rate),
                    ..old(self)@
                })
            }),
    {
        let rate: u32 = if instructions_per_tick == 0 { 1 } else { instructions_per_tick };
        self.tick_budget = rescale(self.tick_budget, self.instructions_per_tick, rate);
        self.instructions_per_tick = rate;
    }

    /// How many instructions a tick takes.
    pub fn instructions_per_tick(&self) -> (r: u32)
        ensures
            r == self@.instructions_per_tick,
    {
        self.instructions_per_tick
    }

    /// Limits the ticks that one `WaitNextEvent` sleeps while no host shows the
    /// screen.
    pub fn set_wait_sleep_cap_in_headless(&mut self, cap: Option<u32>)
        ensures
            final(self)@ == (RunnerView { wait_sleep_cap_in_headless: cap, ..old(self)@ }),
            old(self).wf() ==> final(self).wf(),
    {
        self.wait_sleep_cap_in_headless = cap;
    }

    /// The limit of a sleep while no host shows the screen.
    pub fn wait_sleep_cap_in_headless(&self) -> (r: Option<u32>)
        ensures
            r == self@.wait_sleep_cap_in_headless,
    {
        self.wait_sleep_cap_in_headless
    }

    /// The mono samples that nobody has fetched yet; none are left.
    pub fn drain_audio(&mut self) -> (r: Vec<u8>)
        ensures
            r@ == old(self)@.audio_buffer,
            final(self)@ == (RunnerView { audio_buffer: Seq::empty(), ..old(self)@ }),
            old(self).wf() ==> final(self).wf(),
    {
        let mut out: Vec<u8> = Vec::new();
        std::mem::swap(&mut out, &mut self.audio_buffer);
        out
    }

    /// Puts the mono samples that nobody has fetched yet into `out`, in place of
    /// what it held; none are left.
    pub fn drain_audio_into(&mut self, out: &mut Vec<u8>)
        ensures
            final(out)@ == old(self)@.audio_buffer,
            final(self)@ == (RunnerView { audio_buffer: Seq::empty(), ..old(self)@ }),
            old(self).wf() ==> final(self).wf(),
    {
        out.clear();
        out.append(&mut self.audio_buffer);
        assert(out@ =~= old(self)@.audio_buffer);
    }

    /// How many mono samples nobody has fetched yet.
    pub fn audio_buffer_len(&self) -> (r: usize)
        ensures
            r == self@.audio_buffer.len(),
    {
        self.audio_buffer.len()
    }

    /// Whether the user is in the middle of a menu, a dialog or a control.
    pub fn is_ui_tracking_active(&self) -> (r: bool)
        ensures
            r == (self@.frozen_ticks is Some || self@.disp.tracking()),
    {
        self.frozen_ticks.is_some() || self.dispatcher.is_menu_tracking() || self.dispatcher.is_dialog_tracking()
            || self.dispatcher.is_control_tracking()
    }

    /// Advances the guest by one tick.
    pub fn force_advance_guest_tick(&mut self)
        requires
            old(self).wf(),
        ensures
            final(self).wf(),
            final(self)@ == old(self)@.ticked(),
    {
        self.advance_guest_tick();
    }
}

} // verus!

use std::collections::VecDeque;

use vstd::prelude::*;

use crate::dialog::{DialogTrackingState, DialogView};
use crate::events::{
    admitted, count_of, first_admitted, is_admitted, PendingFileCompletion, PendingWaitNextEventReturn, QueuedEvent,
    TimerTask, VblTask, CORE_EVENT_CLASS, HIGH_LEVEL_EVENT, KEY_DOWN, KEY_UP, MOUSE_DOWN, MOUSE_MOVED_MESSAGE, MOUSE_UP,
    OPEN_APPLICATION, OS_EVT, OS_MASK, UPDATE_EVT,
};
use crate::file_manager::{fresh_files, FileManager, FileView};
use crate::globals::THE_GDEVICE;
use crate::memory::{long_at, word_at, BusView, MacMemoryBus};
use crate::resource_manager::{fresh_resources, ResourceManager, ResourceTable};
use crate::screen::{fresh_screen, Screen};
use crate::sound::{PendingDoubleBackCallback, PendingSoundCallback, SoundManager, SoundView};
use crate::shell::{
    chrome_views, fresh_shell, last_answer, ChromeKind, ChromePart, CursorImage, Shell, ShellView, TrapAnswer,
};
use crate::theme::UiThemeId;

verus! {

/// Number of trap words that are counted apart.
pub const TRAP_SLOTS: usize = 4096;

/// A window that the guest has opened.
#[derive(Clone, Copy, Debug, PartialEq, Eq)]
pub struct GuestWindow {
    pub ptr: u32,
    /// Top, left, bottom and right on the screen.
    pub bounds: (i16, i16, i16, i16),
    pub visible: bool,
    /// Part of its content is out of date.
    pub invalid: bool,
}

/// Why a trap was not completed.
#[derive(Clone, Copy, Debug, PartialEq, Eq, Structural)]
pub enum Error {
    /// The application has ended.
    Halted,
    /// No handler serves this trap word.
    UnimplementedTrap(u16),
    /// The instruction limit was reached after this many instructions.
    Timeout(usize),
}

/// An application that is to be started.
pub struct PendingLaunch {
    pub path: String,
    /// The launching application goes on until it next asks for an event.
    pub waits_for_yield: bool,
}

/// A requested start as a mathematical value.
pub struct LaunchView {
    pub path: Seq<char>,
    pub waits_for_yield: bool,
}

impl PendingLaunch {
    pub open spec fn view(&self) -> LaunchView {
        LaunchView { path: self.path@, waits_for_yield: self.waits_for_yield }
    }
}

/// The state of the Toolbox and of the Operating System that guest traps see.
pub struct TrapDispatcher {
    pub tick_count: u32,
    pub trap_count: u64,
    pub game_trap_count: u64,
    pub instruction_count: u64,
    pub trap_histogram: Vec<u64>,
    pub inline_skipped: Vec<u64>,
    pub current_trap_word: u16,
    pub yield_for_ui: bool,
    pub hle_tick_cost: i32,
    pub mouse_pos: (i16, i16),
    pub mouse_button: bool,
    pub key_map: [u8; 16],
    pub key_repeat: Option<u8>,
    pub event_queue: VecDeque<QueuedEvent>,
    pub sent_open_app_event: bool,
    pub debug_mouse_moved_event_count: u32,
    pub pending_wait_sleep_ticks: u32,
    pub pending_wait_next_event_return: Option<PendingWaitNextEventReturn>,
    pub pending_delay_ticks: u32,
    pub vbl_tasks: Vec<VblTask>,
    pub timer_tasks: Vec<TimerTask>,
    pub timer_current_subtick: u64,
    pub pending_file_completions: VecDeque<PendingFileCompletion>,
    pub sound_manager: SoundManager,
    pub dialog_tracking: Option<DialogTrackingState>,
    pub modeless_dialog_draw_proc_queue: VecDeque<(u32, u32, i16)>,
    pub active_modeless_dialog_draw_proc: Option<u32>,
    pub menu_tracking: bool,
    pub control_tracking: bool,
    pub dialog_filter_result_addr: u32,
    /// Dialogs whose pixels are kept on screen.
    pub dialog_visible_snapshots: Vec<u32>,
    /// Dialogs that `ModalDialog` has handled.
    pub dialog_modal_entered: Vec<u32>,
    pub desk_accessory_work: bool,
    pub windows: Vec<GuestWindow>,
    pub current_port: u32,
    pub cursor_level: i16,
    pub fm_output: u32,
    pub pending_launch: Option<PendingLaunch>,
    pub launched_app_path: Option<String>,
    pub files: FileManager,
    pub resources: ResourceManager,
    pub screen: Screen,
    pub shell: Shell,
}

/// The dispatcher as a mathematical value.
pub struct DispView {
    pub tick_count: u32,
    pub trap_count: u64,
    pub game_trap_count: u64,
    pub instruction_count: u64,
    pub trap_histogram: Seq<u64>,
    pub inline_skipped: Seq<u64>,
    pub current_trap_word: u16,
    pub yield_for_ui: bool,
    pub hle_tick_cost: i32,
    pub mouse_pos: (i16, i16),
    pub mouse_button: bool,
    pub key_map: Seq<u8>,
    pub key_repeat: Option<u8>,
    pub event_queue: Seq<QueuedEvent>,
    pub sent_open_app_event: bool,
    pub debug_mouse_moved_event_count: u32,
    pub pending_wait_sleep_ticks: u32,
    pub pending_wait_next_event_return: Option<PendingWaitNextEventReturn>,
    pub pending_delay_ticks: u32,
    pub vbl_tasks: Seq<VblTask>,
    pub timer_tasks: Seq<TimerTask>,
    pub timer_current_subtick: u64,
    pub pending_file_completions: Seq<PendingFileCompletion>,
    pub sound: SoundView,
    pub dialog: Option<DialogView>,
    pub modeless_dialog_draw_proc_queue: Seq<(u32, u32, i16)>,
    pub active_modeless_dialog_draw_proc: Option<u32>,
    pub menu_tracking: bool,
    pub control_tracking: bool,
    pub dialog_filter_result_addr: u32,
    pub dialog_visible_snapshots: Seq<u32>,
    pub dialog_modal_entered: Seq<u32>,
    pub desk_accessory_work: bool,
    pub windows: Seq<GuestWindow>,
    pub current_port: u32,
    pub cursor_level: i16,
    pub fm_output: u32,
    pub pending_launch: Option<LaunchView>,
    pub launched_app_path: Option<Seq<char>>,
    pub files: FileView,
    pub resources: ResourceTable,
    pub screen: Screen,
    pub shell: ShellView,
}

/// `n` plus one, at most the largest value.
pub open spec fn bumped(n: u64) -> u64 {
    if n == u64::MAX { n } else { (n + 1) as u64 }
}

/// The slot of a trap word in the counters.
pub open spec fn trap_slot(opcode: u16) -> int {
    (opcode % 4096) as int
}

/// The modifiers word that goes with an event now: the button bit is set while
/// the button is up, and each modifier key contributes its bit.
pub open spec fn modifiers_of(button: bool, keys: Seq<u8>) -> u16 {
    let up: int = if button { 0 } else { 0x0080 };
    let command: int = if key_down(keys, 0x37) { 0x0100 } else { 0 };
    let shift: int = if key_down(keys, 0x38) { 0x0200 } else { 0 };
    let caps: int = if key_down(keys, 0x39) { 0x0400 } else { 0 };
    let option: int = if key_down(keys, 0x3A) { 0x0800 } else { 0 };
    let control: int = if key_down(keys, 0x3B) { 0x1000 } else { 0 };
    (up + command + shift + caps + option + control) as u16
}

/// Whether key `key` is down in the key map.
pub open spec fn key_down(keys: Seq<u8>, key: u8) -> bool {
    (keys[(key / 8) as int] >> (key % 8)) & 1 == 1
}

/// Position of the first visible window with stale content.
pub open spec fn first_invalid(windows: Seq<GuestWindow>, from: int) -> Option<int>
    decreases windows.len() - from,
{
    if from < 0 || from >= windows.len() {
        None
    } else if windows[from].visible && windows[from].invalid {
        Some(from)
    } else {
        first_invalid(windows, from + 1)
    }
}

impl DispView {
    /// The event modifiers at this moment.
    pub open spec fn modifiers(self) -> u16 {
        modifiers_of(self.mouse_button, self.key_map)
    }

    /// An event of code `what` at the present mouse position.
    pub open spec fn event_here(self, what: u16, message: u32) -> QueuedEvent {
        QueuedEvent {
            what,
            message,
            where_v: self.mouse_pos.0,
            where_h: self.mouse_pos.1,
            modifiers: self.modifiers(),
        }
    }

    /// More mouse-down than mouse-up events wait in the queue.
    pub open spec fn unmatched_mouse_down(self) -> bool {
        count_of(self.event_queue, MOUSE_DOWN, self.event_queue.len()) > count_of(
            self.event_queue,
            MOUSE_UP,
            self.event_queue.len(),
        )
    }

    /// The update event of the frontmost window with stale content.
    pub open spec fn update_event(self, mask: u16) -> Option<QueuedEvent> {
        match first_invalid(self.windows, 0) {
            Some(i) => if admitted(mask, UPDATE_EVT) {
                Some(self.event_here(UPDATE_EVT, self.windows[i].ptr))
            } else {
                None
            },
            None => None,
        }
    }

    /// The event that the Event Manager would report: the first queued one that
    /// `mask` admits, then a choice of the host's menus, then the application's open
    /// event, then an update.
    pub open spec fn next_event(self, mask: u16) -> Option<QueuedEvent> {
        match first_admitted(self.event_queue, mask, 0) {
            Some(i) => Some(self.event_queue[i]),
            None => if self.shell.native_menu_event is Some && admitted(mask, MOUSE_DOWN) {
                Some(self.menu_press(self.shell.native_menu_event->0))
            } else if !self.sent_open_app_event && admitted(mask, HIGH_LEVEL_EVENT) {
                Some(
                    QueuedEvent {
                        what: HIGH_LEVEL_EVENT,
                        message: CORE_EVENT_CLASS,
                        where_v: (OPEN_APPLICATION / 0x1_0000) as i16,
                        where_h: (OPEN_APPLICATION % 0x1_0000) as i16,
                        modifiers: self.modifiers(),
                    },
                )
            } else {
                self.update_event(mask)
            },
        }
    }

    /// The state once that event has been taken.
    pub open spec fn without_next_event(self, mask: u16) -> DispView {
        match first_admitted(self.event_queue, mask, 0) {
            Some(i) => DispView { event_queue: self.event_queue.remove(i), ..self },
            None => if self.shell.native_menu_event is Some && admitted(mask, MOUSE_DOWN) {
                DispView { shell: ShellView { native_menu_event: None, ..self.shell }, ..self }
            } else if !self.sent_open_app_event && admitted(mask, HIGH_LEVEL_EVENT) {
                DispView { sent_open_app_event: true, ..self }
            } else {
                self
            },
        }
    }

    /// The mouse lies outside the region behind handle `rgn`, and `mask` admits
    /// the event that says so.
    pub open spec fn mouse_left(self, mem: Seq<u8>, mask: u16, rgn: u32) -> bool {
        let ptr = long_at(mem, rgn);
        &&& rgn != 0
        &&& mask & OS_MASK != 0
        &&& !(word_at(mem, ptr.wrapping_add(2)) as i16 <= self.mouse_pos.0 && self.mouse_pos.0 < word_at(
            mem,
            ptr.wrapping_add(6),
        ) as i16 && word_at(mem, ptr.wrapping_add(4)) as i16 <= self.mouse_pos.1 && self.mouse_pos.1 < word_at(
            mem,
            ptr.wrapping_add(8),
        ) as i16)
    }

    /// The mouse button is held over a button of the dialog.
    pub open spec fn mouse_on_dialog_button(self) -> bool {
        self.mouse_button && (self.dialog matches Some(d) && d.button_at(self.mouse_pos.0, self.mouse_pos.1))
    }

    /// The mouse button is held over a plain user item of the dialog.
    pub open spec fn mouse_on_plain_user_item(self) -> bool {
        self.mouse_button && (self.dialog matches Some(d) && d.plain_user_item_at(self.mouse_pos.0, self.mouse_pos.1))
    }

    /// One more occurrence of trap word `opcode`.
    pub open spec fn counted(self, opcode: u16) -> DispView {
        DispView {
            trap_count: bumped(self.trap_count),
            trap_histogram: self.trap_histogram.update(
                trap_slot(opcode),
                bumped(self.trap_histogram[trap_slot(opcode)]),
            ),
            ..self
        }
    }

    /// One more occurrence that was served without the dispatcher.
    pub open spec fn counted_inline(self, opcode: u16) -> DispView {
        DispView {
            inline_skipped: self.inline_skipped.update(
                trap_slot(opcode),
                bumped(self.inline_skipped[trap_slot(opcode)]),
            ),
            ..self.counted(opcode)
        }
    }

    /// Parts of this kind are on the screen: the menu bar unless it is hidden, and a modal
    /// dialog unless its picture is being drawn.
    pub open spec fn shows(self, kind: ChromeKind) -> bool {
        match kind {
            ChromeKind::MenuBar => !self.screen.menu_bar_hidden,
            ChromeKind::Window => true,
            ChromeKind::Dialog => self.dialog matches Some(d) && d.rendered_pixels_final,
        }
    }

    /// Memory after the first `n` parts of the picture around the application were drawn.
    pub open spec fn chrome_drawn(self, b: BusView, n: nat) -> BusView
        decreases n,
    {
        if n == 0 {
            b
        } else {
            let c = self.chrome_drawn(b, (n - 1) as nat);
            let part = self.shell.chrome[n - 1];
            if self.shows(part.kind) {
                c.bytes(part.at, part.pixels)
            } else {
                c
            }
        }
    }

    /// Memory after the picture around the application was drawn again over what the
    /// application drew there.
    #[verifier::opaque]
    pub open spec fn redrawn(self, b: BusView) -> BusView {
        self.chrome_drawn(b, self.shell.chrome.len())
    }

    /// The answer to trap `opcode` that was given last.
    pub open spec fn answer_to(self, opcode: u16) -> Option<TrapAnswer> {
        last_answer(self.shell.trap_answers, opcode, self.shell.trap_answers.len())
    }

    /// Whether some tracking trap is in progress.
    pub open spec fn tracking(self) -> bool {
        self.menu_tracking || self.dialog is Some || self.control_tracking
    }

    /// Whether the tracking that `opcode` stands for is in progress, so that the
    /// trap has to run again.
    pub open spec fn refires(self, opcode: u16) -> bool {
        let trap = opcode & 0xFBFF;
        ||| (trap == 0xA93D || trap == 0xA80B) && self.menu_tracking
        ||| trap == 0xA968 && self.control_tracking
        ||| trap == 0xA991 && self.dialog is Some
    }
}

/// Memory with an event record at `ptr`.
pub open spec fn with_event_record(b: BusView, ptr: u32, ev: QueuedEvent, ticks: u32) -> BusView {
    b.word(ptr, ev.what).long(ptr.wrapping_add(2), ev.message).long(ptr.wrapping_add(6), ticks).word(
        ptr.wrapping_add(10),
        ev.where_v as u16,
    ).word(ptr.wrapping_add(12), ev.where_h as u16).word(ptr.wrapping_add(14), ev.modifiers)
}

impl TrapDispatcher {
    #[verifier::opaque]
    pub open spec fn view(&self) -> DispView {
        DispView {
            tick_count: self.tick_count,
            trap_count: self.trap_count,
            game_trap_count: self.game_trap_count,
            instruction_count: self.instruction_count,
            trap_histogram: self.trap_histogram@,
            inline_skipped: self.inline_skipped@,
            current_trap_word: self.current_trap_word,
            yield_for_ui: self.yield_for_ui,
            hle_tick_cost: self.hle_tick_cost,
            mouse_pos: self.mouse_pos,
            mouse_button: self.mouse_button,
            key_map: self.key_map@,
            key_repeat: self.key_repeat,
            event_queue: self.event_queue@,
            sent_open_app_event: self.sent_open_app_event,
            debug_mouse_moved_event_count: self.debug_mouse_moved_event_count,
            pending_wait_sleep_ticks: self.pending_wait_sleep_ticks,
            pending_wait_next_event_return: self.pending_wait_next_event_return,
            pending_delay_ticks: self.pending_delay_ticks,
            vbl_tasks: self.vbl_tasks@,
            timer_tasks: self.timer_tasks@,
            timer_current_subtick: self.timer_current_subtick,
            pending_file_completions: self.pending_file_completions@,
            sound: self.sound_manager@,
            dialog: match self.dialog_tracking {
                Some(d) => Some(d@),
                None => None,
            },
            modeless_dialog_draw_proc_queue: self.modeless_dialog_draw_proc_queue@,
            active_modeless_dialog_draw_proc: self.active_modeless_dialog_draw_proc,
            menu_tracking: self.menu_tracking,
            control_tracking: self.control_tracking,
            dialog_filter_result_addr: self.dialog_filter_result_addr,
            dialog_visible_snapshots: self.dialog_visible_snapshots@,
            dialog_modal_entered: self.dialog_modal_entered@,
            desk_accessory_work: self.desk_accessory_work,
            windows: self.windows@,
            current_port: self.current_port,
            cursor_level: self.cursor_level,
            fm_output: self.fm_output,
            pending_launch: match self.pending_launch {
                Some(p) => Some(p@),
                None => None,
            },
            launched_app_path: match self.launched_app_path {
                Some(p) => Some(p@),
                None => None,
            },
            files: self.files@,
            resources: self.resources@,
            screen: self.screen,
            shell: self.shell@,
        }
    }

    /// The counters have a slot for every trap word.
    pub open spec fn wf(&self) -> bool {
        self.trap_histogram@.len() == TRAP_SLOTS && self.inline_skipped@.len() == TRAP_SLOTS && self.files.wf()
    }

    /// An idle Toolbox.
    pub fn new() -> (r: Self)
        ensures
            r.wf(),
            r@ == fresh_dispatcher(),
    {
        proof {
            reveal(TrapDispatcher::view);
        }
        let r = TrapDispatcher {
            tick_count: 0,
            trap_count: 0,
            game_trap_count: 0,
            instruction_count: 0,
            trap_histogram: vec![0u64; TRAP_SLOTS],
            inline_skipped: vec![0u64; TRAP_SLOTS],
            current_trap_word: 0,
            yield_for_ui: false,
            hle_tick_cost: 0,
            mouse_pos: (0, 0),
            mouse_button: false,
            key_map: [0u8; 16],
            key_repeat: None,
            event_queue: VecDeque::new(),
            sent_open_app_event: false,
            debug_mouse_moved_event_count: 0,
            pending_wait_sleep_ticks: 0,
            pending_wait_next_event_return: None,
            pending_delay_ticks: 0,
            vbl_tasks: Vec::new(),
            timer_tasks: Vec::new(),
            timer_current_subtick: 0,
            pending_file_completions: VecDeque::new(),
            sound_manager: SoundManager::new(),
            dialog_tracking: None,
            modeless_dialog_draw_proc_queue: VecDeque::new(),
            active_modeless_dialog_draw_proc: None,
            menu_tracking: false,
            control_tracking: false,
            dialog_filter_result_addr: 0,
            dialog_visible_snapshots: Vec::new(),
            dialog_modal_entered: Vec::new(),
            desk_accessory_work: false,
            windows: Vec::new(),
            current_port: 0,
            cursor_level: 0,
            fm_output: 0,
            pending_launch: None,
            launched_app_path: None,
            files: FileManager::new(),
            resources: ResourceManager::new(),
            screen: Screen {
                base: 0,
                row_bytes: 0,
                width: 0,
                height: 0,
                pixel_size: 0,
                menu_bar_hidden: true,
                gdevice: 0,
            },
            shell: Shell::new(),
        };
        assert(r@.trap_histogram =~= fresh_dispatcher().trap_histogram);
        assert(r@.inline_skipped =~= fresh_dispatcher().inline_skipped);
        assert(r@.key_map =~= fresh_dispatcher().key_map);
        r
    }

    fn is_key_down(&self, key: u8) -> (r: bool)
        requires
            key < 128,
        ensures
            r == key_down(self@.key_map, key),
    {
        proof {
            reveal(TrapDispatcher::view);
        }
        (self.key_map[(key / 8) as usize] >> (key % 8)) & 1 == 1
    }

    /// The event modifiers at this moment.
    pub fn current_event_modifiers(&self) -> (r: u16)
        ensures
            r == self@.modifiers(),
    {
        proof {
            reveal(TrapDispatcher::view);
        }
        let mut m: u16 = if self.mouse_button { 0 } else { 0x0080 };
        if self.is_key_down(0x37) {
            m = m + 0x0100;
        }
        if self.is_key_down(0x38) {
            m = m + 0x0200;
        }
        if self.is_key_down(0x39) {
            m = m + 0x0400;
        }
        if self.is_key_down(0x3A) {
            m = m + 0x0800;
        }
        if self.is_key_down(0x3B) {
            m = m + 0x1000;
        }
        m
    }

    /// An event of code `what` at the present mouse position.
    pub fn make_event(&self, what: u16, message: u32) -> (r: QueuedEvent)
        ensures
            r == self@.event_here(what, message),
    {
        proof {
            reveal(TrapDispatcher::view);
        }
        QueuedEvent {
            what,
            message,
            where_v: self.mouse_pos.0,
            where_h: self.mouse_pos.1,
            modifiers: self.current_event_modifiers(),
        }
    }

    /// Moves the mouse.
    pub fn set_mouse_position(&mut self, v: i16, h: i16)
        ensures
            final(self)@ == (DispView { mouse_pos: (v, h), ..old(self)@ }),
            final(self).wf() == old(self).wf(),
    {
        proof {
            reveal(TrapDispatcher::view);
        }
        self.mouse_pos = (v, h);
    }

    /// Presses the mouse button at a point and queues the event.
    pub fn push_mouse_down(&mut self, v: i16, h: i16)
        ensures
            final(self)@ == ({
                let moved = DispView { mouse_pos: (v, h), mouse_button: true, ..old(self)@ };
                DispView { event_queue: moved.event_queue.push(moved.event_here(MOUSE_DOWN, 0)), ..moved }
            }),
            final(self).wf() == old(self).wf(),
    {
        proof {
            reveal(TrapDispatcher::view);
        }
        self.mouse_pos = (v, h);
        self.mouse_button = true;
        let ev: QueuedEvent = self.make_event(MOUSE_DOWN, 0);
        self.event_queue.push_back(ev);
    }

    /// Releases the mouse button at a point and queues the event.
    pub fn push_mouse_up(&mut self, v: i16, h: i16)
        ensures
            final(self)@ == ({
                let moved = DispView { mouse_pos: (v, h), mouse_button: false, ..old(self)@ };
                DispView { event_queue: moved.event_queue.push(moved.event_here(MOUSE_UP, 0)), ..moved }
            }),
            final(self).wf() == old(self).wf(),
    {
        proof {
            reveal(TrapDispatcher::view);
        }
        self.mouse_pos = (v, h);
        self.mouse_button = false;
        let ev: QueuedEvent = self.make_event(MOUSE_UP, 0);
        self.event_queue.push_back(ev);
    }

    /// Presses a key and queues the event. Only the first 128 key codes have a
    /// bit in the key map.
    pub fn push_key_down(&mut self, key: u8, char_code: u8)
        ensures
            final(self)@ == with_key(old(self)@, key, char_code, true),
            final(self).wf() == old(self).wf(),
    {
        proof {
            reveal(TrapDispatcher::view);
        }
        let k: u8 = key % 128;
        let i: usize = (k / 8) as usize;
        self.key_map[i] = self.key_map[i] | (1u8 << (k % 8));
        let ev: QueuedEvent = self.make_event(KEY_DOWN, key as u32 * 256 + char_code as u32);
        self.event_queue.push_back(ev);
    }

    /// Releases a key and queues the event.
    pub fn push_key_up(&mut self, key: u8, char_code: u8)
        ensures
            final(self)@ == with_key(old(self)@, key, char_code, false),
            final(self).wf() == old(self).wf(),
    {
        proof {
            reveal(TrapDispatcher::view);
        }
        let k: u8 = key % 128;
        let i: usize = (k / 8) as usize;
        self.key_map[i] = self.key_map[i] & !(1u8 << (k % 8));
        let ev: QueuedEvent = self.make_event(KEY_UP, key as u32 * 256 + char_code as u32);
        self.event_queue.push_back(ev);
    }

    fn count_events(&self, what: u16) -> (r: usize)
        ensures
            r == count_of(self@.event_queue, what, self@.event_queue.len()),
    {
        proof {
            reveal(TrapDispatcher::view);
        }
        let mut n: usize = 0;
        let mut i: usize = 0;
        while i < self.event_queue.len()
            invariant
                i <= self.event_queue.len(),
                n <= i,
                n == count_of(self.event_queue@, what, i as nat),
            decreases self.event_queue.len() - i,
        {
            proof {
                reveal(TrapDispatcher::view);
            }
            if self.event_queue[i].what == what {
                n += 1;
            }
            i += 1;
        }
        n
    }

    /// Whether more mouse-down than mouse-up events wait in the queue.
    pub fn has_unmatched_queued_mouse_down(&self) -> (r: bool)
        ensures
            r == self@.unmatched_mouse_down(),
    {
        proof {
            reveal(TrapDispatcher::view);
        }
        self.count_events(MOUSE_DOWN) > self.count_events(MOUSE_UP)
    }

    fn find_admitted(&self, mask: u16) -> (r: Option<usize>)
        ensures
            r is None <==> first_admitted(self@.event_queue, mask, 0) is None,
            r matches Some(i) ==> i < self@.event_queue.len() && first_admitted(self@.event_queue, mask, 0) == Some(
                i as int,
            ),
    {
        proof {
            reveal(TrapDispatcher::view);
        }
        let mut i: usize = 0;
        while i < self.event_queue.len()
            invariant
                i <= self.event_queue.len(),
                first_admitted(self@.event_queue, mask, 0) == first_admitted(self@.event_queue, mask, i as int),
            decreases self.event_queue.len() - i,
        {
            proof {
                reveal(TrapDispatcher::view);
            }
            if is_admitted(mask, self.event_queue[i].what) {
                return Some(i);
            }
            i += 1;
        }
        None
    }

    /// The update event of the frontmost window with stale content.
    pub fn pending_update_event(&self, mask: u16) -> (r: Option<QueuedEvent>)
        ensures
            r == self@.update_event(mask),
    {
        proof {
            reveal(TrapDispatcher::view);
        }
        let mut i: usize = 0;
        while i < self.windows.len()
            invariant
                i <= self.windows.len(),
                first_invalid(self@.windows, 0) == first_invalid(self@.windows, i as int),
            decreases self.windows.len() - i,
        {
            proof {
                reveal(TrapDispatcher::view);
            }
            let w: GuestWindow = self.windows[i];
            if w.visible && w.invalid {
                return if is_admitted(mask, UPDATE_EVT) { Some(self.make_event(UPDATE_EVT, w.ptr)) } else { None };
            }
            i += 1;
        }
        None
    }

    fn open_application_event(&self) -> (r: QueuedEvent)
        ensures
            r == (QueuedEvent {
                what: HIGH_LEVEL_EVENT,
                message: CORE_EVENT_CLASS,
                where_v: (OPEN_APPLICATION / 0x1_0000) as i16,
                where_h: (OPEN_APPLICATION % 0x1_0000) as i16,
                modifiers: self@.modifiers(),
            }),
    {
        proof {
            reveal(TrapDispatcher::view);
        }
        QueuedEvent {
            what: HIGH_LEVEL_EVENT,
            message: CORE_EVENT_CLASS,
            where_v: 0x6F61,
            where_h: 0x7070,
            modifiers: self.current_event_modifiers(),
        }
    }

    fn native_menu_press(&self) -> (r: Option<QueuedEvent>)
        ensures
            r == match self@.shell.native_menu_event {
                Some(e) => Some(self@.menu_press(e)),
                None => None,
            },
    {
        proof {
            reveal(TrapDispatcher::view);
        }
        match self.shell.native_menu_event {
            Some(e) => Some(
                QueuedEvent {
                    what: MOUSE_DOWN,
                    message: 0,
                    where_v: e.v,
                    where_h: e.h,
                    modifiers: self.current_event_modifiers(),
                },
            ),
            None => None,
        }
    }

    /// The event that the Event Manager would report, left in place.
    pub fn peek_toolbox_event(&self, mask: u16) -> (r: Option<QueuedEvent>)
        ensures
            r == self@.next_event(mask),
    {
        proof {
            reveal(TrapDispatcher::view);
        }
        match self.find_admitted(mask) {
            Some(i) => Some(self.event_queue[i]),
            None => if self.shell.native_menu_event.is_some() && is_admitted(mask, MOUSE_DOWN) {
                self.native_menu_press()
            } else if !self.sent_open_app_event && is_admitted(mask, HIGH_LEVEL_EVENT) {
                Some(self.open_application_event())
            } else {
                self.pending_update_event(mask)
            },
        }
    }

    /// Takes the event that the Event Manager reports.
    pub fn dequeue_toolbox_event(&mut self, mask: u16) -> (r: Option<QueuedEvent>)
        ensures
            r == old(self)@.next_event(mask),
            final(self)@ == old(self)@.without_next_event(mask),
            final(self).wf() == old(self).wf(),
    {
        proof {
            reveal(TrapDispatcher::view);
        }
        match self.find_admitted(mask) {
            Some(i) => self.event_queue.remove(i),
            None => if self.shell.native_menu_event.is_some() && is_admitted(mask, MOUSE_DOWN) {
                let press: Option<QueuedEvent> = self.native_menu_press();
                self.shell.native_menu_event = None;
                press
            } else if !self.sent_open_app_event && is_admitted(mask, HIGH_LEVEL_EVENT) {
                self.sent_open_app_event = true;
                Some(self.open_application_event())
            } else {
                self.pending_update_event(mask)
            },
        }
    }

    /// The mouse-moved event, when the mouse lies outside the region.
    pub fn mouse_moved_event_for_region(&self, bus: &MacMemoryBus, mask: u16, rgn: u32) -> (r: Option<QueuedEvent>)
        ensures
            r == if self@.mouse_left(bus.mem(), mask, rgn) {
                Some(self@.event_here(OS_EVT, MOUSE_MOVED_MESSAGE))
            } else {
                None
            },
    {
        proof {
            reveal(TrapDispatcher::view);
        }
        if rgn == 0 || mask & OS_MASK == 0 {
            return None;
        }
        let ptr: u32 = bus.read_long(rgn);
        let top: i16 = bus.read_word(ptr.wrapping_add(2)) as i16;
        let left: i16 = bus.read_word(ptr.wrapping_add(4)) as i16;
        let bottom: i16 = bus.read_word(ptr.wrapping_add(6)) as i16;
        let right: i16 = bus.read_word(ptr.wrapping_add(8)) as i16;
        let v: i16 = self.mouse_pos.0;
        let h: i16 = self.mouse_pos.1;
        if top <= v && v < bottom && left <= h && h < right {
            return None;
        }
        Some(self.make_event(OS_EVT, MOUSE_MOVED_MESSAGE))
    }

    /// Writes an event record: code, message, time, place and modifiers.
    pub fn write_event_record(&self, bus: &mut MacMemoryBus, ptr: u32, ev: QueuedEvent)
        ensures
            final(bus)@ == with_event_record(old(bus)@, ptr, ev, self.tick_count),
            old(bus).probe_wf() ==> final(bus).probe_wf(),
    {
        proof {
            reveal(TrapDispatcher::view);
        }
        bus.write_word(ptr, ev.what);
        bus.write_long(ptr.wrapping_add(2), ev.message);
        bus.write_long(ptr.wrapping_add(6), self.tick_count);
        bus.write_word(ptr.wrapping_add(10), ev.where_v as u16);
        bus.write_word(ptr.wrapping_add(12), ev.where_h as u16);
        bus.write_word(ptr.wrapping_add(14), ev.modifiers);
    }

    /// Whether the mouse button is held over a button of the dialog.
    pub fn mouse_down_over_dialog_button(&self) -> (r: bool)
        ensures
            r == self@.mouse_on_dialog_button(),
    {
        proof {
            reveal(TrapDispatcher::view);
        }
        match &self.dialog_tracking {
            Some(d) => self.mouse_button && d.has_button_at(self.mouse_pos.0, self.mouse_pos.1),
            None => false,
        }
    }

    /// Whether the mouse button is held over a plain user item of the dialog.
    pub fn mouse_down_over_dialog_plain_user_item(&self) -> (r: bool)
        ensures
            r == self@.mouse_on_plain_user_item(),
    {
        proof {
            reveal(TrapDispatcher::view);
        }
        match &self.dialog_tracking {
            Some(d) => self.mouse_button && d.has_plain_user_item_at(self.mouse_pos.0, self.mouse_pos.1),
            None => false,
        }
    }

    /// Whether a press of the button on a plain user item of the dialog is being dealt
    /// with.
    pub fn pending_dialog_plain_user_item_mouse_down(&self) -> (r: bool)
        ensures
            r == self@.shell.user_item_mouse_down,
    {
        proof {
            reveal(TrapDispatcher::view);
        }
        self.shell.user_item_mouse_down
    }

    /// Notes that a press of the button on a plain user item of the dialog is being
    /// dealt with, or no longer.
    pub fn set_pending_dialog_plain_user_item_mouse_down(&mut self, pending: bool)
        ensures
            final(self)@ == (DispView { shell: ShellView { user_item_mouse_down: pending, ..old(self)@.shell }, ..old(self)@ }),
            old(self).wf() ==> final(self).wf(),
    {
        proof {
            reveal(TrapDispatcher::view);
        }
        self.shell.user_item_mouse_down = pending;
    }

    /// The look that the Toolbox draws with.
    pub fn ui_theme_id(&self) -> (r: UiThemeId)
        ensures
            r == self@.shell.ui_theme,
    {
        proof {
            reveal(TrapDispatcher::view);
        }
        self.shell.ui_theme
    }

    /// Sets the look that the Toolbox draws with.
    pub fn set_ui_theme_id(&mut self, id: UiThemeId)
        ensures
            final(self)@ == (DispView { shell: ShellView { ui_theme: id, ..old(self)@.shell }, ..old(self)@ }),
            old(self).wf() ==> final(self).wf(),
    {
        proof {
            reveal(TrapDispatcher::view);
        }
        self.shell.ui_theme = id;
    }

    /// Draws the menu bar, the window frames and the modal dialog again.
    pub fn redraw_chrome(&self, bus: &mut MacMemoryBus)
        ensures
            final(bus)@ == self@.redrawn(old(bus)@),
            final(bus).mem().len() == old(bus).mem().len(),
            old(bus).probe_wf() ==> final(bus).probe_wf(),
    {
        proof {
            reveal(TrapDispatcher::view);
            reveal(DispView::redrawn);
        }
        let mut i: usize = 0;
        while i < self.shell.chrome.len()
            invariant
                i <= self.shell.chrome.len(),
                self@.shell.chrome == chrome_views(self.shell.chrome@),
                self@.screen.menu_bar_hidden == self.screen.menu_bar_hidden,
                self@.dialog is Some <==> self.dialog_tracking is Some,
                self.dialog_tracking matches Some(d) ==> self@.dialog->0.rendered_pixels_final == d.rendered_pixels_final,
                bus@ == self@.chrome_drawn(old(bus)@, i as nat),
                bus.mem().len() == old(bus).mem().len(),
                old(bus).probe_wf() ==> bus.probe_wf(),
            decreases self.shell.chrome.len() - i,
        {
            let part: &ChromePart = &self.shell.chrome[i];
            let shown: bool = match part.kind {
                ChromeKind::MenuBar => !self.screen.menu_bar_hidden,
                ChromeKind::Window => true,
                ChromeKind::Dialog => match &self.dialog_tracking {
                    Some(d) => d.rendered_pixels_final,
                    None => false,
                },
            };
            proof {
                broadcast use crate::memory::group_memory_lengths;
                assert(self@.shell.chrome[i as int] == part@);
            }
            if shown {
                bus.write_bytes(part.at, part.pixels.as_slice());
            }
            i += 1;
        }
    }

    /// Sets how the menu bar, the window frames and the modal dialog look.
    pub fn set_chrome(&mut self, parts: Vec<ChromePart>)
        ensures
            final(self)@ == (DispView { shell: ShellView { chrome: chrome_views(parts@), ..old(self)@.shell }, ..old(self)@ }),
            old(self).wf() ==> final(self).wf(),
    {
        proof {
            reveal(TrapDispatcher::view);
        }
        self.shell.chrome = parts;
    }

    /// Sets the colours that the application shows.
    pub fn install_application_clut(&mut self, clut: [[u16; 3]; 256])
        ensures
            final(self)@ == (DispView { shell: ShellView { application_clut: Some(clut), ..old(self)@.shell }, ..old(self)@ }),
            old(self).wf() ==> final(self).wf(),
    {
        proof {
            reveal(TrapDispatcher::view);
        }
        self.shell.application_clut = Some(clut);
    }

    /// The colours that the application shows, if it has set them.
    pub fn application_clut(&self) -> (r: Option<[[u16; 3]; 256]>)
        ensures
            r == self@.shell.application_clut,
    {
        proof {
            reveal(TrapDispatcher::view);
        }
        self.shell.application_clut
    }

    /// The image of the cursor, if the application has set one.
    pub fn cursor_data(&self) -> (r: Option<CursorImage>)
        ensures
            r == self@.shell.cursor_image,
    {
        proof {
            reveal(TrapDispatcher::view);
        }
        self.shell.cursor_image
    }

    /// Sets the image of the cursor.
    pub fn set_cursor_data(&mut self, image: Option<CursorImage>)
        ensures
            final(self)@ == (DispView { shell: ShellView { cursor_image: image, ..old(self)@.shell }, ..old(self)@ }),
            old(self).wf() ==> final(self).wf(),
    {
        proof {
            reveal(TrapDispatcher::view);
        }
        self.shell.cursor_image = image;
    }

    /// Whether the application has taken the whole screen.
    pub fn is_fullscreen_locked(&self) -> (r: bool)
        ensures
            r == self@.shell.fullscreen_locked,
    {
        proof {
            reveal(TrapDispatcher::view);
        }
        self.shell.fullscreen_locked
    }

    /// Notes that the application has taken the whole screen, or given it back.
    pub fn set_fullscreen_locked(&mut self, locked: bool)
        ensures
            final(self)@ == (DispView { shell: ShellView { fullscreen_locked: locked, ..old(self)@.shell }, ..old(self)@ }),
            old(self).wf() ==> final(self).wf(),
    {
        proof {
            reveal(TrapDispatcher::view);
        }
        self.shell.fullscreen_locked = locked;
    }

    /// Answers a trap that nothing here serves from now on; an answer given before for
    /// the same trap no longer counts.
    pub fn answer_trap(&mut self, answer: TrapAnswer)
        ensures
            final(self)@ == (DispView { shell: ShellView { trap_answers: old(self)@.shell.trap_answers.push(answer), ..old(self)@.shell }, ..old(self)@ }),
            old(self).wf() ==> final(self).wf(),
    {
        proof {
            reveal(TrapDispatcher::view);
        }
        self.shell.trap_answers.push(answer);
    }

    /// The answer to trap `opcode` that was given last.
    pub fn trap_answer(&self, opcode: u16) -> (r: Option<TrapAnswer>)
        ensures
            r == self@.answer_to(opcode),
    {
        proof {
            reveal(TrapDispatcher::view);
        }
        let mut i: usize = self.shell.trap_answers.len();
        while i > 0
            invariant
                i <= self.shell.trap_answers.len(),
                self@.shell.trap_answers == self.shell.trap_answers@,
                last_answer(self@.shell.trap_answers, opcode, self@.shell.trap_answers.len()) == last_answer(
                    self@.shell.trap_answers,
                    opcode,
                    i as nat,
                ),
            decreases i,
        {
            if self.shell.trap_answers[i - 1].opcode == opcode {
                return Some(self.shell.trap_answers[i - 1]);
            }
            i -= 1;
        }
        None
    }

    /// Makes `port` the current port, and `gdevice` the current device.
    pub fn set_current_port_state(&mut self, bus: &mut MacMemoryBus, port: u32, gdevice: Option<u32>)
        ensures
            final(self)@ == (DispView { current_port: port, ..old(self)@ }),
            final(self).wf() == old(self).wf(),
            final(bus)@ == match gdevice {
                Some(g) => old(bus)@.long(THE_GDEVICE, g),
                None => old(bus)@,
            },
            old(bus).probe_wf() ==> final(bus).probe_wf(),
    {
        proof {
            reveal(TrapDispatcher::view);
        }
        self.current_port = port;
        if let Some(g) = gdevice {
            bus.write_long(THE_GDEVICE, g);
        }
    }

    pub fn is_menu_tracking(&self) -> (r: bool)
        ensures
            r == self@.menu_tracking,
    {
        proof {
            reveal(TrapDispatcher::view);
        }
        self.menu_tracking
    }

    pub fn is_dialog_tracking(&self) -> (r: bool)
        ensures
            r == (self@.dialog is Some),
    {
        proof {
            reveal(TrapDispatcher::view);
        }
        self.dialog_tracking.is_some()
    }

    pub fn is_control_tracking(&self) -> (r: bool)
        ensures
            r == self@.control_tracking,
    {
        proof {
            reveal(TrapDispatcher::view);
        }
        self.control_tracking
    }

    /// Whether `opcode` has to run again because its tracking is in progress.
    pub fn is_tracking_refire(&self, opcode: u16) -> (r: bool)
        ensures
            r == self@.refires(opcode),
    {
        proof {
            reveal(TrapDispatcher::view);
        }
        let trap: u16 = opcode & 0xFBFF;
        ((trap == 0xA93D || trap == 0xA80B) && self.menu_tracking) || (trap == 0xA968 && self.control_tracking) || (trap
            == 0xA991 && self.dialog_tracking.is_some())
    }

    /// Whether `SystemTask` has a desk accessory or driver to call.
    pub fn system_task_has_periodic_work(&self) -> (r: bool)
        ensures
            r == self@.desk_accessory_work,
    {
        proof {
            reveal(TrapDispatcher::view);
        }
        self.desk_accessory_work
    }

    /// Adds one occurrence of `opcode` to the counters.
    pub fn count_trap(&mut self, opcode: u16, inline: bool)
        requires
            old(self).wf(),
        ensures
            final(self)@ == if inline { old(self)@.counted_inline(opcode) } else { old(self)@.counted(opcode) },
            final(self).wf(),
    {
        proof {
            reveal(TrapDispatcher::view);
        }
        let i: usize = (opcode % 4096) as usize;
        self.trap_count = self.trap_count.saturating_add(1);
        let n: u64 = self.trap_histogram[i].saturating_add(1);
        self.trap_histogram.set(i, n);
        if inline {
            let k: u64 = self.inline_skipped[i].saturating_add(1);
            self.inline_skipped.set(i, k);
        }
    }

    /// Takes the oldest completed file request.
    pub fn take_file_completion(&mut self) -> (r: Option<PendingFileCompletion>)
        ensures
            r is None <==> old(self)@.pending_file_completions.len() == 0,
            r is None ==> final(self)@ == old(self)@,
            r matches Some(c) ==> c == old(self)@.pending_file_completions[0] && final(self)@ == (DispView {
                pending_file_completions: old(self)@.pending_file_completions.subrange(
                    1,
                    old(self)@.pending_file_completions.len() as int,
                ),
                ..old(self)@
            }),
            old(self).wf() ==> final(self).wf(),
    {
        proof {
            reveal(TrapDispatcher::view);
        }
        self.pending_file_completions.pop_front()
    }

    /// Takes the oldest pending sound callback.
    pub fn take_sound_callback(&mut self) -> (r: Option<PendingSoundCallback>)
        ensures
            r is None <==> old(self)@.sound.pending_sound_callbacks.len() == 0,
            r is None ==> final(self)@ == old(self)@,
            r matches Some(c) ==> c == old(self)@.sound.pending_sound_callbacks[0] && final(self)@ == (DispView {
                sound: SoundView {
                    pending_sound_callbacks: old(self)@.sound.pending_sound_callbacks.remove(0),
                    ..old(self)@.sound
                },
                ..old(self)@
            }),
            old(self).wf() ==> final(self).wf(),
    {
        proof {
            reveal(TrapDispatcher::view);
        }
        self.sound_manager.take_sound_callback()
    }

    /// Takes the oldest pending buffer refill.
    pub fn take_doubleback(&mut self) -> (r: Option<PendingDoubleBackCallback>)
        ensures
            r is None <==> old(self)@.sound.pending_callbacks.len() == 0,
            r is None ==> final(self)@ == old(self)@,
            r matches Some(c) ==> c == old(self)@.sound.pending_callbacks[0] && final(self)@ == (DispView {
                sound: SoundView {
                    pending_callbacks: old(self)@.sound.pending_callbacks.remove(0),
                    ..old(self)@.sound
                },
                ..old(self)@
            }),
            old(self).wf() ==> final(self).wf(),
    {
        proof {
            reveal(TrapDispatcher::view);
        }
        self.sound_manager.take_doubleback()
    }

    /// Notes the time at which the timer tasks are looked at.
    pub fn note_timer_time(&mut self, now: u64)
        ensures
            final(self)@ == (DispView { timer_current_subtick: now, ..old(self)@ }),
            old(self).wf() ==> final(self).wf(),
    {
        proof {
            reveal(TrapDispatcher::view);
        }
        self.timer_current_subtick = now;
    }

    /// Marks timer task `k` as fired in a tick, and gives it as it was.
    pub fn mark_timer_fired(&mut self, k: usize, tick: u32) -> (r: TimerTask)
        requires
            k < old(self)@.timer_tasks.len(),
        ensures
            r == old(self)@.timer_tasks[k as int],
            final(self)@ == (DispView {
                timer_tasks: old(self)@.timer_tasks.update(
                    k as int,
                    (TimerTask { active: false, last_fired_tick: Some(tick), ..r }),
                ),
                ..old(self)@
            }),
            old(self).wf() ==> final(self).wf(),
    {
        proof {
            reveal(TrapDispatcher::view);
        }
        let task: TimerTask = self.timer_tasks[k];
        let fired: TimerTask = TimerTask {
            task_ptr: task.task_ptr,
            tm_addr: task.tm_addr,
            active: false,
            fire_at_tick: task.fire_at_tick,
            fire_at_subtick: task.fire_at_subtick,
            last_fired_tick: Some(tick),
        };
        self.timer_tasks.set(k, fired);
        task
    }

    /// Sets the tick count.
    pub fn set_tick_count(&mut self, tick: u32)
        ensures
            final(self)@ == (DispView { tick_count: tick, ..old(self)@ }),
            old(self).wf() ==> final(self).wf(),
    {
        proof {
            reveal(TrapDispatcher::view);
        }
        self.tick_count = tick;
    }

    /// The state of the keys.
    pub fn keys(&self) -> (r: [u8; 16])
        ensures
            r@ == self@.key_map,
    {
        proof {
            reveal(TrapDispatcher::view);
        }
        self.key_map
    }

    /// Whether the mouse counts as pressed: the button is held, or a press
    /// waits in the queue without its release.
    pub fn mouse_reads_pressed(&self) -> (r: bool)
        ensures
            r == (self@.mouse_button || self@.unmatched_mouse_down()),
    {
        proof {
            reveal(TrapDispatcher::view);
        }
        self.mouse_button || self.has_unmatched_queued_mouse_down()
    }

    /// The cost that the last trap asked for, which is then forgotten.
    pub fn take_hle_tick_cost(&mut self) -> (r: i32)
        ensures
            r == old(self)@.hle_tick_cost,
            final(self)@ == (DispView { hle_tick_cost: 0, ..old(self)@ }),
            final(self).wf() == old(self).wf(),
    {
        proof {
            reveal(TrapDispatcher::view);
        }
        let cost: i32 = self.hle_tick_cost;
        self.hle_tick_cost = 0;
        cost
    }
}

/// The state after key `key` was pressed or released and its event queued.
pub open spec fn with_key(d: DispView, key: u8, char_code: u8, down: bool) -> DispView {
    let k = key % 128;
    let i = (k / 8) as int;
    let bit = 1u8 << (k % 8);
    let changed = DispView {
        key_map: d.key_map.update(i, if down { d.key_map[i] | bit } else { d.key_map[i] & !bit }),
        ..d
    };
    DispView {
        event_queue: changed.event_queue.push(
            changed.event_here(if down { KEY_DOWN } else { KEY_UP }, (key * 256 + char_code) as u32),
        ),
        ..changed
    }
}

/// The state of an idle Toolbox.
pub open spec fn fresh_dispatcher() -> DispView {
    DispView {
        tick_count: 0,
        trap_count: 0,
        game_trap_count: 0,
        instruction_count: 0,
        trap_histogram: Seq::new(TRAP_SLOTS as nat, |i: int| 0u64),
        inline_skipped: Seq::new(TRAP_SLOTS as nat, |i: int| 0u64),
        current_trap_word: 0,
        yield_for_ui: false,
        hle_tick_cost: 0,
        mouse_pos: (0, 0),
        mouse_button: false,
        key_map: Seq::new(16, |i: int| 0u8),
        key_repeat: None,
        event_queue: Seq::empty(),
        sent_open_app_event: false,
        debug_mouse_moved_event_count: 0,
        pending_wait_sleep_ticks: 0,
        pending_wait_next_event_return: None,
        pending_delay_ticks: 0,
        vbl_tasks: Seq::empty(),
        timer_tasks: Seq::empty(),
        timer_current_subtick: 0,
        pending_file_completions: Seq::empty(),
        sound: SoundView {
            channels: Seq::empty(),
            pending_sound_callbacks: Seq::empty(),
            pending_callbacks: Seq::empty(),
            mixed: 0,
        },
        dialog: None,
        modeless_dialog_draw_proc_queue: Seq::empty(),
        active_modeless_dialog_draw_proc: None,
        menu_tracking: false,
        control_tracking: false,
        dialog_filter_result_addr: 0,
        dialog_visible_snapshots: Seq::empty(),
        dialog_modal_entered: Seq::empty(),
        desk_accessory_work: false,
        windows: Seq::empty(),
        current_port: 0,
        cursor_level: 0,
        fm_output: 0,
        pending_launch: None,
        launched_app_path: None,
        files: fresh_files(),
        resources: fresh_resources(),
        screen: fresh_screen(),
        shell: fresh_shell(),
    }
}

/// The view shows `tick_count`.
pub broadcast proof fn lemma_view_tick_count(d: &TrapDispatcher)
    ensures
        #[trigger] d.tick_count == d@.tick_count,
{
    reveal(TrapDispatcher::view);
}

/// The view shows `pending_wait_sleep_ticks`.
pub broadcast proof fn lemma_view_pending_wait_sleep_ticks(d: &TrapDispatcher)
    ensures
        #[trigger] d.pending_wait_sleep_ticks == d@.pending_wait_sleep_ticks,
{
    reveal(TrapDispatcher::view);
}

/// The view shows `pending_wait_next_event_return`.
pub broadcast proof fn lemma_view_pending_wait_next_event_return(d: &TrapDispatcher)
    ensures
        #[trigger] d.pending_wait_next_event_return == d@.pending_wait_next_event_return,
{
    reveal(TrapDispatcher::view);
}

/// The view shows `pending_delay_ticks`.
pub broadcast proof fn lemma_view_pending_delay_ticks(d: &TrapDispatcher)
    ensures
        #[trigger] d.pending_delay_ticks == d@.pending_delay_ticks,
{
    reveal(TrapDispatcher::view);
}

/// The view shows `dialog_filter_result_addr`.
pub broadcast proof fn lemma_view_dialog_filter_result_addr(d: &TrapDispatcher)
    ensures
        #[trigger] d.dialog_filter_result_addr == d@.dialog_filter_result_addr,
{
    reveal(TrapDispatcher::view);
}

/// The view shows `key_repeat`.
pub broadcast proof fn lemma_view_key_repeat(d: &TrapDispatcher)
    ensures
        #[trigger] d.key_repeat == d@.key_repeat,
{
    reveal(TrapDispatcher::view);
}

/// The view shows the lists.
pub broadcast proof fn lemma_view_vbl_tasks(d: &TrapDispatcher)
    ensures
        #[trigger] d.vbl_tasks@ == d@.vbl_tasks,
{
    reveal(TrapDispatcher::view);
}

/// The view shows the timer tasks.
pub broadcast proof fn lemma_view_timer_tasks(d: &TrapDispatcher)
    ensures
        #[trigger] d.timer_tasks@ == d@.timer_tasks,
{
    reveal(TrapDispatcher::view);
}

/// The view shows the modeless draw procedures.
pub broadcast proof fn lemma_view_modeless_dialog_draw_proc_queue(d: &TrapDispatcher)
    ensures
        #[trigger] d.modeless_dialog_draw_proc_queue@ == d@.modeless_dialog_draw_proc_queue,
{
    reveal(TrapDispatcher::view);
}

/// The view shows the dialog in progress.
pub broadcast proof fn lemma_view_dialog(d: &TrapDispatcher)
    ensures
        d@.dialog == (match #[trigger] d.dialog_tracking {
            Some(t) => Some(t@),
            None => None,
        }),
{
    reveal(TrapDispatcher::view);
}

/// The view shows the requested start.
pub broadcast proof fn lemma_view_pending_launch(d: &TrapDispatcher)
    ensures
        d@.pending_launch is Some <==> #[trigger] d.pending_launch is Some,
{
    reveal(TrapDispatcher::view);
}

/// The view shows the sound channels.
pub broadcast proof fn lemma_view_sound(d: &TrapDispatcher)
    ensures
        #[trigger] d.sound_manager@ == d@.sound,
{
    reveal(TrapDispatcher::view);
}

/// The sizes of the fixed tables.
pub broadcast proof fn lemma_view_sizes(d: &TrapDispatcher)
    requires
        #[trigger] d.wf(),
    ensures
        d@.trap_histogram.len() == TRAP_SLOTS,
        d@.inline_skipped.len() == TRAP_SLOTS,
        d@.key_map.len() == 16,
{
    reveal(TrapDispatcher::view);
}

/// What the view shows of the fields that are read one by one.
pub broadcast group group_dispatcher_fields {
    lemma_view_tick_count,
    lemma_view_pending_wait_sleep_ticks,
    lemma_view_pending_wait_next_event_return,
    lemma_view_pending_delay_ticks,
    lemma_view_dialog_filter_result_addr,
    lemma_view_key_repeat,
    lemma_view_vbl_tasks,
    lemma_view_timer_tasks,
    lemma_view_modeless_dialog_draw_proc_queue,
    lemma_view_dialog,
    lemma_view_pending_launch,
    lemma_view_sound,
    lemma_view_sizes,
}

} // verus!

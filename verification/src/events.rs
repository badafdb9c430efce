use vstd::prelude::*;

verus! {

/// Event codes of the Event Manager.
pub const NULL_EVENT: u16 = 0;
pub const MOUSE_DOWN: u16 = 1;
pub const MOUSE_UP: u16 = 2;
pub const KEY_DOWN: u16 = 3;
pub const KEY_UP: u16 = 4;
pub const UPDATE_EVT: u16 = 6;
pub const OS_EVT: u16 = 15;
pub const HIGH_LEVEL_EVENT: u16 = 23;

/// Event mask bit of operating system events.
pub const OS_MASK: u16 = 0x8000;
/// Event mask bit of high-level events.
pub const HIGH_LEVEL_MASK: u16 = 0x0400;
/// Event mask bit of update events.
pub const UPDATE_MASK: u16 = 0x0040;
/// Message of a mouse-moved event.
pub const MOUSE_MOVED_MESSAGE: u32 = 0xFA00_0000;
/// Class of the required Apple events.
pub const CORE_EVENT_CLASS: u32 = 0x6165_7674;
/// Identifier of the Apple event that opens an application.
pub const OPEN_APPLICATION: u32 = 0x6F61_7070;

/// An event that waits for the application.
#[derive(Clone, Copy, Debug, PartialEq, Eq, Structural)]
pub struct QueuedEvent {
    pub what: u16,
    pub message: u32,
    pub where_v: i16,
    pub where_h: i16,
    pub modifiers: u16,
}

/// Whether the event mask admits event code `what`.
pub open spec fn admitted(mask: u16, what: u16) -> bool {
    if what == HIGH_LEVEL_EVENT { mask & HIGH_LEVEL_MASK != 0 } else { what < 16 && (mask >> what) & 1 == 1 }
}

/// Whether the event mask admits event code `what`.
pub fn is_admitted(mask: u16, what: u16) -> (r: bool)
    ensures
        r == admitted(mask, what),
{
    if what == HIGH_LEVEL_EVENT { mask & HIGH_LEVEL_MASK != 0 } else { what < 16 && (mask >> what) & 1 == 1 }
}

/// Events that ModalDialog hands to a filter procedure: mouse, key and update
/// events.
pub open spec fn actionable(what: u16) -> bool {
    what == MOUSE_DOWN || what == MOUSE_UP || what == KEY_DOWN || what == KEY_UP || what == UPDATE_EVT
}

/// Position of the first event that ModalDialog would hand on.
pub open spec fn first_actionable(queue: Seq<QueuedEvent>, from: int) -> Option<int>
    decreases queue.len() - from,
{
    if from < 0 || from >= queue.len() {
        None
    } else if actionable(queue[from].what) {
        Some(from)
    } else {
        first_actionable(queue, from + 1)
    }
}

/// Position of the first event that `mask` admits.
pub open spec fn first_admitted(queue: Seq<QueuedEvent>, mask: u16, from: int) -> Option<int>
    decreases queue.len() - from,
{
    if from < 0 || from >= queue.len() {
        None
    } else if admitted(mask, queue[from].what) {
        Some(from)
    } else {
        first_admitted(queue, mask, from + 1)
    }
}

/// How many of the first `n` events have code `what`.
pub open spec fn count_of(queue: Seq<QueuedEvent>, what: u16, n: nat) -> nat
    decreases n,
{
    if n == 0 {
        0
    } else {
        count_of(queue, what, (n - 1) as nat) + if queue[n - 1].what == what { 1nat } else { 0nat }
    }
}

/// Where a sleeping `WaitNextEvent` wants its event and its result, and the
/// processor state that it returns to.
#[derive(Clone, Copy, Debug, PartialEq, Eq)]
pub struct PendingWaitNextEventReturn {
    pub event_ptr: u32,
    pub result_ptr: u32,
    pub event_mask: u16,
    pub mouse_rgn: u32,
    pub resume_pc: Option<u32>,
    pub resume_sp: Option<u32>,
}

/// A vertical retrace task.
#[derive(Clone, Copy, Debug, PartialEq, Eq)]
pub struct VblTask {
    pub task_ptr: u32,
    pub slot: Option<u16>,
}

/// A Time Manager task. Times are in ticks and in millionths of a tick.
#[derive(Clone, Copy, Debug, PartialEq, Eq)]
pub struct TimerTask {
    pub task_ptr: u32,
    pub tm_addr: u32,
    pub active: bool,
    pub fire_at_tick: u32,
    pub fire_at_subtick: u64,
    pub last_fired_tick: Option<u32>,
}

/// A completed asynchronous File Manager request.
#[derive(Clone, Copy, Debug, PartialEq, Eq)]
pub struct PendingFileCompletion {
    pub parameter_block: u32,
    pub completion_addr: u32,
    pub result: i16,
}

} // verus!

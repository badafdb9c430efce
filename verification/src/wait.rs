use vstd::prelude::*;

use crate::events::{PendingWaitNextEventReturn, QueuedEvent, MOUSE_MOVED_MESSAGE, NULL_EVENT, OS_EVT};
use crate::memory::{group_memory_lengths, BusView, MacMemoryBus};
use crate::trap::{with_event_record, DispView, TrapDispatcher};

verus! {

broadcast use group_memory_lengths;

/// The processor is no longer where a sleeping `WaitNextEvent` returns to.
pub open spec fn stale(p: PendingWaitNextEventReturn, pc: u32, sp: u32) -> bool {
    p.resume_pc matches Some(rpc) && p.resume_sp matches Some(rsp) && (pc != rpc || sp != rsp)
}

/// Memory with an event and the function result of a waking `WaitNextEvent`.
pub open spec fn with_reply(b: BusView, p: PendingWaitNextEventReturn, ev: QueuedEvent, ticks: u32, found: bool) -> BusView {
    with_event_record(b, p.event_ptr, ev, ticks).word(p.result_ptr, if found { 0xFFFFu16 } else { 0u16 })
}

impl DispView {
    /// The state when a sleep has ended.
    pub open spec fn awake(self) -> DispView {
        DispView { pending_wait_sleep_ticks: 0, ..self }
    }

    /// The state when nobody waits for an event any more.
    pub open spec fn unparked(self) -> DispView {
        DispView { pending_wait_next_event_return: None, ..self }
    }

    /// One more event said that the mouse has moved.
    pub open spec fn mouse_move_counted(self) -> DispView {
        DispView {
            debug_mouse_moved_event_count: if self.debug_mouse_moved_event_count == u32::MAX {
                u32::MAX
            } else {
                (self.debug_mouse_moved_event_count + 1) as u32
            },
            ..self
        }
    }

    /// Ends a `WaitNextEvent` sleep if there is an event for it, and says
    /// whether it ended. A sleeper that the processor has left is dropped.
    #[verifier::opaque]
    pub open spec fn delivered(self, b: BusView, pc: u32, sp: u32) -> (DispView, BusView, bool) {
        match self.pending_wait_next_event_return {
            None => if self.event_queue.len() > 0 || self.shell.native_menu_event is Some {
                (self.awake(), b, true)
            } else {
                (self, b, false)
            },
            Some(p) => {
                let taken = self.unparked();
                if stale(p, pc, sp) {
                    (taken.awake(), b, false)
                } else {
                    match self.next_event(p.event_mask) {
                        Some(ev) => (
                            taken.without_next_event(p.event_mask).awake(),
                            with_reply(b, p, ev, self.tick_count, true),
                            true,
                        ),
                        None => if self.mouse_left(b.mem, p.event_mask, p.mouse_rgn) {
                            (
                                taken.mouse_move_counted().awake(),
                                with_reply(b, p, self.event_here(OS_EVT, MOUSE_MOVED_MESSAGE), self.tick_count, true),
                                true,
                            )
                        } else {
                            (self, b, false)
                        },
                    }
                }
            },
        }
    }

    /// Ends a `WaitNextEvent` sleep with a null event, and says whether it ended.
    #[verifier::opaque]
    pub open spec fn polled(self, b: BusView, pc: u32, sp: u32) -> (DispView, BusView, bool) {
        match self.pending_wait_next_event_return {
            Some(p) if self.pending_wait_sleep_ticks != 0 => if stale(p, pc, sp) {
                (self.unparked().awake(), b, false)
            } else {
                (
                    self.unparked().awake(),
                    with_reply(b, p, self.event_here(NULL_EVENT, 0), self.tick_count, false),
                    true,
                )
            },
            _ => (self, b, false),
        }
    }

    /// A dialog that `ModalDialog` has run is still on the screen.
    pub open spec fn retains_modal_dialog(self) -> bool {
        exists|i: int|
            0 <= i < self.dialog_visible_snapshots.len() && self.dialog_modal_entered.contains(
                #[trigger] self.dialog_visible_snapshots[i],
            )
    }

    /// A dialog that the application runs by itself is on the screen.
    pub open spec fn shows_own_dialog(self) -> bool {
        exists|i: int|
            0 <= i < self.dialog_visible_snapshots.len() && !self.dialog_modal_entered.contains(
                #[trigger] self.dialog_visible_snapshots[i],
            )
    }
}

/// It makes no difference whether the sleeper or its event is taken first.
proof fn lemma_unparked(d: DispView, mask: u16)
    ensures
        d.without_next_event(mask).unparked() == d.unparked().without_next_event(mask),
        d.mouse_move_counted().unparked() == d.unparked().mouse_move_counted(),
        d.without_next_event(mask).tick_count == d.tick_count,
{
}

impl TrapDispatcher {
    fn is_stale(p: &PendingWaitNextEventReturn, pc: u32, sp: u32) -> (r: bool)
        ensures
            r == stale(*p, pc, sp),
    {
        proof {
            reveal(TrapDispatcher::view);
        }
        match (p.resume_pc, p.resume_sp) {
            (Some(rpc), Some(rsp)) => pc != rpc || sp != rsp,
            _ => false,
        }
    }

    /// The sleeping `WaitNextEvent`, if there is one.
    fn sleeper(&self) -> (r: Option<PendingWaitNextEventReturn>)
        ensures
            r == self@.pending_wait_next_event_return,
    {
        proof {
            reveal(TrapDispatcher::view);
        }
        self.pending_wait_next_event_return
    }

    /// Ends a sleep that nobody waits in, should input be there.
    fn wake_for_input(&mut self) -> (r: bool)
        ensures
            r == (old(self)@.event_queue.len() > 0 || old(self)@.shell.native_menu_event is Some),
            final(self)@ == if r { old(self)@.awake() } else { old(self)@ },
            old(self).wf() ==> final(self).wf(),
    {
        proof {
            reveal(TrapDispatcher::view);
        }
        if self.event_queue.len() > 0 || self.shell.native_menu_event.is_some() {
            self.pending_wait_sleep_ticks = 0;
            return true;
        }
        false
    }

    /// Nobody sleeps any more.
    fn wake_all(&mut self)
        ensures
            final(self)@ == old(self)@.unparked().awake(),
            old(self).wf() ==> final(self).wf(),
    {
        proof {
            reveal(TrapDispatcher::view);
        }
        self.pending_wait_next_event_return = None;
        self.pending_wait_sleep_ticks = 0;
    }

    /// Lets a sleeping `WaitNextEvent` return with an event.
    fn wake_with(&mut self, bus: &mut MacMemoryBus, p: &PendingWaitNextEventReturn, ev: QueuedEvent)
        ensures
            final(self)@ == old(self)@.unparked().awake(),
            final(bus)@ == with_reply(old(bus)@, *p, ev, old(self)@.tick_count, true),
            old(self).wf() ==> final(self).wf(),
            old(bus).probe_wf() ==> final(bus).probe_wf(),
            final(bus)@.mem.len() == old(bus)@.mem.len(),
    {
        assert(self.tick_count == self@.tick_count) by {
            reveal(TrapDispatcher::view);
        }
        self.write_event_record(bus, p.event_ptr, ev);
        bus.write_word(p.result_ptr, 0xFFFF);
        self.wake_all();
    }

    /// Takes the event that a sleeping `WaitNextEvent` would return with.
    fn take_sleeper_event(&mut self, bus: &MacMemoryBus, p: &PendingWaitNextEventReturn) -> (r: Option<QueuedEvent>)
        ensures
            match old(self)@.next_event(p.event_mask) {
                Some(ev) => r == Some(ev) && final(self)@ == old(self)@.without_next_event(p.event_mask),
                None => if old(self)@.mouse_left(bus@.mem, p.event_mask, p.mouse_rgn) {
                    r == Some(old(self)@.event_here(OS_EVT, MOUSE_MOVED_MESSAGE)) && final(self)@
                        == old(self)@.mouse_move_counted()
                } else {
                    r is None && final(self)@ == old(self)@
                },
            },
            old(self).wf() ==> final(self).wf(),
    {
        proof {
            reveal(TrapDispatcher::view);
        }
        let event: Option<QueuedEvent> = self.dequeue_toolbox_event(p.event_mask);
        if event.is_some() {
            return event;
        }
        let moved: Option<QueuedEvent> = self.mouse_moved_event_for_region(bus, p.event_mask, p.mouse_rgn);
        if moved.is_some() && self.debug_mouse_moved_event_count < u32::MAX {
            self.debug_mouse_moved_event_count = self.debug_mouse_moved_event_count + 1;
        }
        moved
    }

    /// Ends a `WaitNextEvent` sleep if there is an event for it.
    pub fn deliver_wait_next_event(&mut self, bus: &mut MacMemoryBus, pc: u32, sp: u32) -> (r: bool)
        ensures
            (final(self)@, final(bus)@, r) == old(self)@.delivered(old(bus)@, pc, sp),
            old(self).wf() ==> final(self).wf(),
            old(bus).probe_wf() ==> final(bus).probe_wf(),
            final(bus)@.mem.len() == old(bus)@.mem.len(),
    {
        proof {
            reveal(DispView::delivered);
        }
        let pending: PendingWaitNextEventReturn = match self.sleeper() {
            Some(p) => p,
            None => return self.wake_for_input(),
        };
        if Self::is_stale(&pending, pc, sp) {
            self.wake_all();
            return false;
        }
        match self.take_sleeper_event(bus, &pending) {
            Some(ev) => {
                proof {
                    lemma_unparked(old(self)@, pending.event_mask);
                }
                self.wake_with(bus, &pending, ev);
                true
            },
            None => false,
        }
    }

    /// Ends a `WaitNextEvent` sleep with a null event.
    pub fn poll_wait_next_event(&mut self, bus: &mut MacMemoryBus, pc: u32, sp: u32) -> (r: bool)
        ensures
            (final(self)@, final(bus)@, r) == old(self)@.polled(old(bus)@, pc, sp),
            old(self).wf() ==> final(self).wf(),
            old(bus).probe_wf() ==> final(bus).probe_wf(),
            final(bus)@.mem.len() == old(bus)@.mem.len(),
    {
        proof {
            reveal(TrapDispatcher::view);
            reveal(DispView::polled);
        }
        if self.pending_wait_sleep_ticks == 0 {
            return false;
        }
        let pending: PendingWaitNextEventReturn = match self.pending_wait_next_event_return {
            Some(p) => p,
            None => return false,
        };
        self.pending_wait_next_event_return = None;
        if Self::is_stale(&pending, pc, sp) {
            self.pending_wait_sleep_ticks = 0;
            return false;
        }
        let ev: QueuedEvent = self.make_event(NULL_EVENT, 0);
        self.write_event_record(bus, pending.event_ptr, ev);
        bus.write_word(pending.result_ptr, 0);
        self.pending_wait_sleep_ticks = 0;
        true
    }

    /// Ends a sleep without an event.
    pub fn end_sleep(&mut self)
        ensures
            final(self)@ == old(self)@.awake().unparked(),
            old(self).wf() ==> final(self).wf(),
    {
        proof {
            reveal(TrapDispatcher::view);
        }
        self.pending_wait_sleep_ticks = 0;
        self.pending_wait_next_event_return = None;
    }

    /// Forgets who waits for an event.
    pub fn unpark(&mut self)
        ensures
            final(self)@ == old(self)@.unparked(),
            old(self).wf() ==> final(self).wf(),
    {
        proof {
            reveal(TrapDispatcher::view);
        }
        self.pending_wait_next_event_return = None;
    }

    /// One tick less to sleep.
    pub fn spend_sleep_tick(&mut self)
        requires
            old(self)@.pending_wait_sleep_ticks > 0,
        ensures
            final(self)@ == (DispView {
                pending_wait_sleep_ticks: (old(self)@.pending_wait_sleep_ticks - 1) as u32,
                ..old(self)@
            }),
            old(self).wf() ==> final(self).wf(),
    {
        proof {
            reveal(TrapDispatcher::view);
        }
        self.pending_wait_sleep_ticks = self.pending_wait_sleep_ticks - 1;
    }

    /// Sets how many ticks a delay has still to last.
    pub fn set_delay_ticks(&mut self, n: u32)
        ensures
            final(self)@ == (DispView { pending_delay_ticks: n, ..old(self)@ }),
            old(self).wf() ==> final(self).wf(),
    {
        proof {
            reveal(TrapDispatcher::view);
        }
        self.pending_delay_ticks = n;
    }

    fn ran_modal(&self, dialog: u32) -> (r: bool)
        ensures
            r == self@.dialog_modal_entered.contains(dialog),
    {
        proof {
            reveal(TrapDispatcher::view);
        }
        let mut i: usize = 0;
        while i < self.dialog_modal_entered.len()
            invariant
                i <= self.dialog_modal_entered.len(),
                forall|k: int| 0 <= k < i ==> self@.dialog_modal_entered[k] != dialog,
            decreases self.dialog_modal_entered.len() - i,
        {
            proof {
                reveal(TrapDispatcher::view);
            }
            if self.dialog_modal_entered[i] == dialog {
                assert(self@.dialog_modal_entered[i as int] == dialog);
                return true;
            }
            i += 1;
        }
        false
    }

    /// Whether a dialog is on the screen that `ModalDialog` has run (`modal`),
    /// or one that it has not.
    pub fn shows_dialog(&self, modal: bool) -> (r: bool)
        ensures
            r == if modal { self@.retains_modal_dialog() } else { self@.shows_own_dialog() },
    {
        proof {
            reveal(TrapDispatcher::view);
        }
        let mut i: usize = 0;
        while i < self.dialog_visible_snapshots.len()
            invariant
                i <= self.dialog_visible_snapshots.len(),
                forall|k: int|
                    0 <= k < i ==> self@.dialog_modal_entered.contains(#[trigger] self@.dialog_visible_snapshots[k])
                        != modal,
            decreases self.dialog_visible_snapshots.len() - i,
        {
            proof {
                reveal(TrapDispatcher::view);
            }
            if self.ran_modal(self.dialog_visible_snapshots[i]) == modal {
                assert(self@.dialog_modal_entered.contains(self@.dialog_visible_snapshots[i as int]) == modal);
                return true;
            }
            i += 1;
        }
        false
    }
}

} // verus!

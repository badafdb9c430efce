use vstd::prelude::*;

use crate::cpu::CpuView;
use crate::events::{admitted, count_of, first_admitted, QueuedEvent};
use crate::memory::{apart, group_memory_bytes, group_memory_lengths, group_memory_reads, BusView};
use crate::memory_laws::{lemma_signed, lemma_signed_back, signed};
use crate::policy::{event_yield, freezes_ticks, trap_cost, trap_number};
use crate::runner::RunnerView;
use crate::shell::TrapAnswer;
use crate::slice::{Flow, SliceOrder};
use crate::trap::{modifiers_of, DispView, Error};
use crate::traps::{event_reply, pt_in_rect, served};

verus! {

broadcast use group_memory_lengths;

/// `t` has the registers of `c` but for the stack pointer, which is `n` bytes higher.
pub open spec fn only_popped(c: CpuView, t: CpuView, n: u32) -> bool {
    &&& t == (CpuView { dar: t.dar, ..c })
    &&& t.dar.len() == c.dar.len()
    &&& t.dar[15] == c.dar[15].wrapping_add(n)
    &&& forall|i: int| 0 <= i < 15 ==> #[trigger] t.dar[i] == c.dar[i]
}

/// The result of `PtInRect` is 1 in the high byte exactly when the point is neither above
/// the rectangle nor to the left of it, and above its lower edge and left of its right
/// edge; else it is zero. Only the result's two bytes change.
pub proof fn lemma_point_in_rectangle(b: BusView, sp: u32, a: u32)
    requires
        sp + 10 <= b.mem.len() <= 0x1_0000_0000,
        b.get_long(sp) + 8 <= 0x1_0000_0000,
    ensures
        ({
            let rect = b.get_long(sp);
            let v = signed(b.get_word((sp + 4) as u32));
            let h = signed(b.get_word((sp + 6) as u32));
            let top = signed(b.get_word(rect));
            let left = signed(b.get_word((rect + 2) as u32));
            let bottom = signed(b.get_word((rect + 4) as u32));
            let right = signed(b.get_word((rect + 6) as u32));
            let c = pt_in_rect(b, sp);
            &&& c.get_word((sp + 8) as u32) == 0x0100 <==> top <= v < bottom && left <= h < right
            &&& c.get_word((sp + 8) as u32) == 0 <==> v < top || v >= bottom || h < left || h >= right
            &&& a != sp + 8 && a != sp + 9 ==> c.get_byte(a) == b.get_byte(a)
            &&& c == (BusView { mem: c.mem, ..b })
        }),
{
    broadcast use {group_memory_reads, group_memory_bytes};

    let rect = b.get_long(sp);
    lemma_signed(b.get_word((sp + 4) as u32));
    lemma_signed(b.get_word((sp + 6) as u32));
    lemma_signed(b.get_word(rect));
    lemma_signed(b.get_word((rect + 2) as u32));
    lemma_signed(b.get_word((rect + 4) as u32));
    lemma_signed(b.get_word((rect + 6) as u32));
}

/// `PtInRect` takes the rectangle's address and the point off the stack and leaves its
/// result there, whether the dispatcher serves it or it is served inline.
pub proof fn lemma_rectangle_trap(d: DispView, c: CpuView, b: BusView, s: RunnerView)
    requires
        c.dar.len() == 16,
        s.cpu.dar.len() == 16,
        s.disp.pending_launch is None,
    ensures
        ({
            let (d2, c2, b2, r) = served(d, c, b, 0xA8AD);
            &&& r is Ok
            &&& d2 == d
            &&& only_popped(c, c2, 8)
            &&& b2 == pt_in_rect(b, c.dar[15])
        }),
        ({
            let (t, flow) = s.rect_asked();
            &&& flow == Flow::Again
            &&& only_popped(s.cpu, t.cpu, 8)
            &&& t.bus == pt_in_rect(s.bus, s.cpu.dar[15])
            &&& t == (RunnerView { cpu: t.cpu, bus: t.bus, disp: t.disp, ..s })
            &&& t.disp.trap_count >= s.disp.trap_count
            &&& t.disp.event_queue == s.disp.event_queue
            &&& t.disp.tick_count == s.disp.tick_count
        }),
{
    reveal(served);
    reveal(RunnerView::rect_asked);
}

/// `TickCount` leaves the Toolbox's tick count where the stack pointer points, and changes
/// no register, whether the dispatcher serves it or it is served inline.
pub proof fn lemma_tick_count_trap(d: DispView, c: CpuView, b: BusView, s: RunnerView, o: SliceOrder, a: u32)
    requires
        c.dar.len() == 16,
        c.dar[15] + 4 <= b.mem.len() <= 0x1_0000_0000,
        s.cpu.dar[15] + 4 <= s.bus.mem.len() <= 0x1_0000_0000,
        !s.skips_waits(o),
    ensures
        ({
            let (d2, c2, b2, r) = served(d, c, b, 0xA975);
            &&& r is Ok
            &&& d2 == d
            &&& c2 == c
            &&& b2.get_long(c.dar[15]) == d.tick_count
            &&& a < c.dar[15] || a >= c.dar[15] + 4 ==> b2.get_byte(a) == b.get_byte(a)
        }),
        ({
            let (t, skipped, flow) = s.tick_count_read(o);
            &&& skipped == 0
            &&& flow == Flow::Again
            &&& t.cpu == s.cpu
            &&& t.bus.get_long(s.cpu.dar[15]) == s.disp.tick_count
            &&& a < s.cpu.dar[15] || a >= s.cpu.dar[15] + 4 ==> t.bus.get_byte(a) == s.bus.get_byte(a)
            &&& t.disp.tick_count == s.disp.tick_count
            &&& t.tick_budget == s.tick_budget
        }),
{
    broadcast use {group_memory_reads, group_memory_bytes};

    reveal(served);
    reveal(RunnerView::tick_count_read);
}

/// An event mask admits the events whose bit it has; high-level events have the bit of
/// the first application event.
pub proof fn lemma_mask_admits(mask: u16, what: u16)
    ensures
        what < 16 ==> (admitted(mask, what) <==> mask & (1u16 << what) != 0),
        what == 23 ==> (admitted(mask, what) <==> mask & 0x0400 != 0),
        what >= 16 && what != 23 ==> !admitted(mask, what),
{
    assert(what < 16 ==> ((mask >> what) & 1 == 1 <==> mask & (1u16 << what) != 0)) by (bit_vector);
}

proof fn lemma_first_admitted(queue: Seq<QueuedEvent>, mask: u16, from: int, i: int)
    requires
        0 <= from <= i < queue.len(),
        admitted(mask, queue[i].what),
        forall|j: int| from <= j < i ==> !admitted(mask, (#[trigger] queue[j]).what),
    ensures
        first_admitted(queue, mask, from) == Some(i),
    decreases i - from,
{
    if from < i {
        lemma_first_admitted(queue, mask, from + 1, i);
    }
}

proof fn lemma_none_admitted(queue: Seq<QueuedEvent>, mask: u16, from: int)
    requires
        0 <= from,
        forall|j: int| from <= j < queue.len() ==> !admitted(mask, (#[trigger] queue[j]).what),
    ensures
        first_admitted(queue, mask, from) is None,
    decreases queue.len() - from,
{
    if from < queue.len() {
        lemma_none_admitted(queue, mask, from + 1);
    }
}

/// The event that is reported is the oldest queued one that the mask admits. Once it is
/// taken the queue has all the others in their order, and nothing else has changed.
pub proof fn lemma_oldest_admitted_event(d: DispView, mask: u16, i: int)
    requires
        0 <= i < d.event_queue.len(),
        admitted(mask, d.event_queue[i].what),
        forall|j: int| 0 <= j < i ==> !admitted(mask, (#[trigger] d.event_queue[j]).what),
    ensures
        d.next_event(mask) == Some(d.event_queue[i]),
        d.without_next_event(mask) == (DispView {
            event_queue: d.event_queue.subrange(0, i) + d.event_queue.subrange(i + 1, d.event_queue.len() as int),
            ..d
        }),
{
    lemma_first_admitted(d.event_queue, mask, 0, i);
    assert(d.event_queue.remove(i) =~= d.event_queue.subrange(0, i) + d.event_queue.subrange(
        i + 1,
        d.event_queue.len() as int,
    ));
}

/// Where the mask admits no queued event, none is taken out of the queue; and where it
/// admits nothing at all, there is no event.
pub proof fn lemma_no_admitted_event(d: DispView, mask: u16)
    requires
        forall|j: int| 0 <= j < d.event_queue.len() ==> !admitted(mask, (#[trigger] d.event_queue[j]).what),
    ensures
        d.without_next_event(mask).event_queue == d.event_queue,
        d.next_event(mask) matches Some(ev) ==> admitted(mask, ev.what) && (ev.what == 1 || ev.what == 6 || ev.what == 23),
        mask == 0 ==> d.next_event(mask) is None && d.without_next_event(mask) == d,
{
    lemma_none_admitted(d.event_queue, mask, 0);
    lemma_mask_admits(mask, 1);
    lemma_mask_admits(mask, 6);
    assert(0u16 & (1u16 << 1u16) == 0 && 0u16 & (1u16 << 6u16) == 0 && 0u16 & 0x0400u16 == 0) by (bit_vector);
}

/// The application's open event is reported once.
pub proof fn lemma_open_event_comes_once(d: DispView)
    requires
        d.event_queue.len() == 0,
        d.shell.native_menu_event is None,
        forall|i: int| 0 <= i < d.windows.len() ==> !(#[trigger] d.windows[i]).invalid,
    ensures
        !d.sent_open_app_event ==> (d.next_event(0x0400) matches Some(ev) && ev.what == 23 && ev.message == 0x6165_7674
            && ev.where_v == 0x6F61 && ev.where_h == 0x7070),
        d.without_next_event(0x0400).next_event(0xFFFF) is None,
{
    assert(0x0400u16 & 0x0400u16 != 0) by (bit_vector);
    lemma_no_invalid(d, 0);
}

proof fn lemma_no_invalid(d: DispView, from: int)
    requires
        0 <= from,
        forall|i: int| 0 <= i < d.windows.len() ==> !(#[trigger] d.windows[i]).invalid,
    ensures
        crate::trap::first_invalid(d.windows, from) is None,
    decreases d.windows.len() - from,
{
    if from < d.windows.len() {
        lemma_no_invalid(d, from + 1);
    }
}

/// `GetNextEvent` and `EventAvail` put the event into the record whose address is on top
/// of the stack, with the tick count as its time, and leave -1 as their result; without an
/// event they leave 0, and the record tells of none and of where the mouse is.
pub proof fn lemma_event_is_reported(d: DispView, b: BusView, sp: u32)
    requires
        sp + 8 <= b.mem.len() <= 0x1_0000_0000,
        b.get_long(sp) + 16 <= b.mem.len(),
        apart(b.get_long(sp), 16, (sp + 6) as u32, 2),
    ensures
        ({
            let at = b.get_long(sp);
            let found = d.next_event(b.get_word((sp + 4) as u32));
            let c = event_reply(d, b, sp);
            &&& c.get_word((sp + 6) as u32) == if found is Some { 0xFFFFu16 } else { 0u16 }
            &&& c.get_long((at + 6) as u32) == d.tick_count
            &&& found matches Some(ev) ==> {
                &&& c.get_word(at) == ev.what
                &&& c.get_long((at + 2) as u32) == ev.message
                &&& signed(c.get_word((at + 10) as u32)) == ev.where_v
                &&& signed(c.get_word((at + 12) as u32)) == ev.where_h
                &&& c.get_word((at + 14) as u32) == ev.modifiers
            }
            &&& found is None ==> {
                &&& c.get_word(at) == 0
                &&& c.get_long((at + 2) as u32) == 0
                &&& signed(c.get_word((at + 10) as u32)) == d.mouse_pos.0
                &&& signed(c.get_word((at + 12) as u32)) == d.mouse_pos.1
            }
        }),
{
    broadcast use group_memory_reads;

    if let Some(ev) = d.next_event(b.get_word((sp + 4) as u32)) {
        lemma_signed_back(ev.where_v);
        lemma_signed_back(ev.where_h);
    }
    lemma_signed_back(d.mouse_pos.0);
    lemma_signed_back(d.mouse_pos.1);
}

/// `EventAvail` leaves the event where it is: asking again tells the same. `GetNextEvent`
/// tells what `EventAvail` tells and takes the event.
pub proof fn lemma_event_traps(d: DispView, c: CpuView, b: BusView, s: RunnerView)
    requires
        c.dar.len() == 16,
        s.cpu.dar.len() == 16,
    ensures
        ({
            let (d1, c1, b1, r1) = served(d, c, b, 0xA971);
            let (d2, c2, b2, r2) = served(d, c, b, 0xA970);
            &&& r1 is Ok && r2 is Ok
            &&& d1 == d
            &&& b1 == event_reply(d, b, c.dar[15])
            &&& b2 == b1
            &&& only_popped(c, c1, 6)
            &&& c2 == c1
            &&& d2 == d.without_next_event(b.get_word(c.dar[15].wrapping_add(4)))
        }),
        ({
            let t = s.event_asked();
            &&& t.bus.mem == event_reply(s.disp, s.bus, s.cpu.dar[15]).mem
            &&& only_popped(s.cpu, t.cpu, 6)
            &&& t.disp.event_queue == s.disp.event_queue
            &&& t.disp.shell == s.disp.shell
            &&& t.disp.sent_open_app_event == s.disp.sent_open_app_event
            &&& t.disp.windows == s.disp.windows
            &&& forall|mask: u16| #[trigger] t.disp.next_event(mask) == s.disp.next_event(mask)
        }),
{
    reveal(served);
    reveal(RunnerView::event_asked);
}

/// A `ModalDialog` in progress ends exactly when its filter procedure has been shown an
/// event and has said that it dealt with it; then its arguments leave the stack. Else the
/// dialog stays, and the trap has not moved the stack pointer, so that it runs again.
pub proof fn lemma_modal_dialog_trap(d: DispView, c: CpuView, b: BusView)
    requires
        c.dar.len() == 16,
        d.dialog is Some,
    ensures
        ({
            let (d2, c2, b2, r) = served(d, c, b, 0xA991);
            let over = d.dialog->0.last_filter_event is Some && b.get_word(d.dialog_filter_result_addr) != 0;
            &&& r is Ok
            &&& b2 == b
            &&& d2 == (DispView { dialog: d2.dialog, ..d })
            &&& d2.dialog is None <==> over
            &&& over ==> only_popped(c, c2, 8)
            &&& !over ==> c2 == c && d2.refires(0xA991)
            &&& d2.dialog matches Some(g) ==> {
                &&& g.last_filter_event is None
                &&& g.dialog_ptr == d.dialog->0.dialog_ptr
                &&& g.filter_proc == d.dialog->0.filter_proc
                &&& g.rendered_pixels_final <==> d.dialog->0.rendered_pixels_final || d.dialog->0.draw_procs_done
            }
        }),
{
    reveal(served);
    assert(0xA991u16 & 0xFBFFu16 == 0xA991u16) by (bit_vector);
}

/// `Random` takes the seed to 16807 times itself modulo the prime below two to the 31st,
/// and leaves the low word of the new seed, or zero for the one word that has no opposite.
pub proof fn lemma_random_trap(d: DispView, c: CpuView, b: BusView)
    requires
        c.dar.len() == 16,
        c.dar[15] + 2 <= b.mem.len() <= 0x1_0000_0000,
        0x15A <= b.mem.len(),
        apart(c.dar[15], 2, 0x156, 4),
    ensures
        ({
            let (d2, c2, b2, r) = served(d, c, b, 0xA861);
            let seed = b.get_long(0x156) as int;
            let next = b2.get_long(0x156) as int;
            let word = b2.get_word(c.dar[15]);
            &&& r is Ok
            &&& d2 == d
            &&& c2 == c
            &&& 0 <= next < 0x7FFF_FFFF
            &&& (16807 * seed - next) % 0x7FFF_FFFF == 0
            &&& -0x8000 < signed(word)
            &&& word == 0 || word == next % 0x1_0000
            &&& word == 0 ==> next % 0x8000 == 0
        }),
{
    let sp = c.dar[15];
    let seed = b.get_long(0x156);
    let next = crate::traps::next_seed(seed);
    lemma_seed(seed);
    lemma_two_writes(b, next, sp, crate::traps::random_of(next));
    reveal(served);
}

proof fn lemma_seed(seed: u32)
    ensures
        ({
            let next = crate::traps::next_seed(seed);
            let word = crate::traps::random_of(next);
            &&& 0 <= next < 0x7FFF_FFFF
            &&& (16807 * seed - next) % 0x7FFF_FFFF == 0
            &&& -0x8000 < signed(word)
            &&& word == 0 || word == next % 0x1_0000
            &&& word == 0 ==> next % 0x8000 == 0
        }),
{
}

proof fn lemma_two_writes(b: BusView, long: u32, sp: u32, word: u16)
    requires
        sp + 2 <= b.mem.len() <= 0x1_0000_0000,
        0x15A <= b.mem.len(),
        apart(sp, 2, 0x156, 4),
    ensures
        b.long(0x156, long).word(sp, word).get_long(0x156) == long,
        b.long(0x156, long).word(sp, word).get_word(sp) == word,
{
    broadcast use group_memory_reads;

}

/// `OffsetRect` moves both vertical and both horizontal edges by the same distances.
pub proof fn lemma_offset_rectangle_trap(d: DispView, c: CpuView, b: BusView)
    requires
        c.dar.len() == 16,
        c.dar[15] + 8 <= b.mem.len() <= 0x1_0000_0000,
        b.get_long((c.dar[15] + 4) as u32) + 8 <= b.mem.len(),
    ensures
        ({
            let sp = c.dar[15];
            let (d2, c2, b2, r) = served(d, c, b, 0xA8A8);
            let dv = b.get_word(sp);
            let dh = b.get_word((sp + 2) as u32);
            let at = b.get_long((sp + 4) as u32);
            &&& r is Ok
            &&& d2 == d
            &&& only_popped(c, c2, 8)
            &&& (b2.get_word(at) - b.get_word(at) - dv) % 0x1_0000 == 0
            &&& (b2.get_word((at + 2) as u32) - b.get_word((at + 2) as u32) - dh) % 0x1_0000 == 0
            &&& (b2.get_word((at + 4) as u32) - b.get_word((at + 4) as u32) - dv) % 0x1_0000 == 0
            &&& (b2.get_word((at + 6) as u32) - b.get_word((at + 6) as u32) - dh) % 0x1_0000 == 0
        }),
{
    broadcast use group_memory_reads;

    reveal(served);
}

/// `GlobalToLocal` moves a point by where the current port begins on the screen: a point
/// there becomes the origin, and without a window for the port nothing moves.
pub proof fn lemma_global_to_local_trap(d: DispView, c: CpuView, b: BusView, i: int)
    requires
        c.dar.len() == 16,
        c.dar[15] + 4 <= b.mem.len() <= 0x1_0000_0000,
        b.get_long(c.dar[15]) + 4 <= b.mem.len(),
        forall|k: int| 0 <= k < i ==> (#[trigger] d.windows[k]).ptr != d.current_port,
        0 <= i <= d.windows.len(),
        i < d.windows.len() ==> d.windows[i].ptr == d.current_port,
    ensures
        ({
            let (d2, c2, b2, r) = served(d, c, b, 0xA871);
            let at = b.get_long(c.dar[15]);
            let v: int = if i < d.windows.len() { d.windows[i].bounds.0 as int } else { 0 };
            let h: int = if i < d.windows.len() { d.windows[i].bounds.1 as int } else { 0 };
            &&& r is Ok
            &&& d2 == d
            &&& only_popped(c, c2, 4)
            &&& (b2.get_word(at) - b.get_word(at) + v) % 0x1_0000 == 0
            &&& (b2.get_word((at + 2) as u32) - b.get_word((at + 2) as u32) + h) % 0x1_0000 == 0
        }),
{
    broadcast use group_memory_reads;

    reveal(served);
    lemma_window_found(d, i, 0);
    if i < d.windows.len() {
        lemma_signed_back(d.windows[i].bounds.0);
        lemma_signed_back(d.windows[i].bounds.1);
    }
}

proof fn lemma_window_found(d: DispView, i: int, from: int)
    requires
        0 <= from <= i <= d.windows.len(),
        forall|k: int| 0 <= k < i ==> (#[trigger] d.windows[k]).ptr != d.current_port,
        i < d.windows.len() ==> d.windows[i].ptr == d.current_port,
    ensures
        crate::traps::window_at(d.windows, d.current_port, from) == if i < d.windows.len() { Some(i) } else { None },
    decreases i - from,
{
    if from < i {
        lemma_window_found(d, i, from + 1);
    }
}

/// `SetPort` makes the port on the stack the current one.
pub proof fn lemma_set_port_trap(d: DispView, c: CpuView, b: BusView)
    requires
        c.dar.len() == 16,
    ensures
        ({
            let (d2, c2, b2, r) = served(d, c, b, 0xA873);
            &&& r is Ok
            &&& b2 == b
            &&& only_popped(c, c2, 4)
            &&& d2.current_port == b.get_long(c.dar[15])
            &&& d2 == (DispView { current_port: d2.current_port, ..d })
        }),
{
    reveal(served);
}

/// The cursor is hidden until it was shown as often as it was hidden; showing it more
/// often makes no difference.
pub proof fn lemma_cursor_traps(d: DispView, c: CpuView, b: BusView)
    requires
        i16::MIN < d.cursor_level <= 0,
        c.dar.len() == 16,
    ensures
        ({
            let (hidden, c1, b1, r1) = served(d, c, b, 0xA852);
            let (shielded, c2, b2, r2) = served(d, c, b, 0xA855);
            let (shown, c3, b3, r3) = served(hidden, c, b, 0xA853);
            let (again, c4, b4, r4) = served(d, c, b, 0xA853);
            &&& r1 is Ok && r2 is Ok && r3 is Ok && r4 is Ok
            &&& hidden.cursor_level == d.cursor_level - 1
            &&& shielded == hidden
            &&& shown == d
            &&& d.cursor_level == 0 ==> again == d
            &&& d.cursor_level < 0 ==> again.cursor_level == d.cursor_level + 1
            &&& c1 == c && c3 == c && c4 == c
            &&& only_popped(c, c2, 8)
            &&& b1 == b && b2 == b && b3 == b && b4 == b
        }),
{
    reveal(served);
}

/// `SwapMMUMode` exchanges the low byte of D0 and the addressing mode: done twice it
/// undoes itself.
pub proof fn lemma_swap_mmu_mode_trap(d: DispView, c: CpuView, b: BusView)
    requires
        c.dar.len() == 16,
        0xCB2 < b.mem.len(),
    ensures
        ({
            let (d2, c2, b2, r) = served(d, c, b, 0xA05D);
            let (d3, c3, b3, r3) = served(d2, c2, b2, 0xA05D);
            &&& r is Ok
            &&& d2 == d
            &&& b2.mem[0xCB2] == c.dar[0] % 256
            &&& c2.dar[0] % 256 == b.mem[0xCB2]
            &&& c2.dar[0] / 256 == c.dar[0] / 256
            &&& b3.mem == b.mem
            &&& c3.dar == c.dar
        }),
{
    reveal(served);
    let (d2, c2, b2, r) = served(d, c, b, 0xA05D);
    let (d3, c3, b3, r3) = served(d2, c2, b2, 0xA05D);
    assert(b3.mem =~= b.mem);
    assert(c3.dar =~= c.dar);
}

/// `FMSwapFont` always gives the same record, once it has one.
pub proof fn lemma_swap_font_trap(d: DispView, c: CpuView, b: BusView)
    requires
        c.dar.len() == 16,
        c.dar[15] + 8 <= b.mem.len() <= 0x1_0000_0000,
    ensures
        ({
            let (d2, c2, b2, r) = served(d, c, b, 0xA901);
            &&& r is Ok
            &&& only_popped(c, c2, 4)
            &&& b2.get_long((c.dar[15] + 4) as u32) == d2.fm_output
            &&& d.fm_output != 0 ==> d2 == d
            &&& d.fm_output == 0 && d2.fm_output != 0 ==> d2.fm_output == b.stubs && d2.fm_output + 26 <= b2.stubs
        }),
{
    broadcast use group_memory_reads;

    reveal(served);
}

/// `Launch` and `ExitToShell` end the application and change nothing else.
pub proof fn lemma_ending_traps(d: DispView, c: CpuView, b: BusView)
    ensures
        served(d, c, b, 0xA9F2) == (d, c, b, Err::<(), Error>(Error::Halted)),
        served(d, c, b, 0xA9F4) == (d, c, b, Err::<(), Error>(Error::Halted)),
        served(d, c, b, 0xA9B4) == (d, c, b, Ok::<(), Error>(())),
{
    reveal(served);
}

/// A trap that the host answers and nothing else serves pops what the answer says, and
/// leaves the answer's result on the stack and in D0.
pub proof fn lemma_answered_trap(d: DispView, c: CpuView, b: BusView, opcode: u16, a: TrapAnswer)
    requires
        c.dar.len() == 16,
        opcode >= 0xAA00,
        opcode & 0xFBFF >= 0xAA00,
        d.answer_to(opcode) == Some(a),
        c.dar[15].wrapping_add(a.popped) + 2 <= b.mem.len() <= 0x1_0000_0000,
    ensures
        ({
            let (d2, c2, b2, r) = served(d, c, b, opcode);
            &&& r is Ok
            &&& d2 == d
            &&& c2.dar[15] == c.dar[15].wrapping_add(a.popped)
            &&& a.d0 matches Some(v) ==> c2.dar[0] == v
            &&& a.d0 is None ==> c2.dar[0] == c.dar[0]
            &&& a.result matches Some(w) ==> b2.get_word(c2.dar[15]) == w
            &&& a.result is None ==> b2 == b
        }),
{
    broadcast use group_memory_reads;

    reveal(served);
}

/// A trap that nothing serves is reported and changes nothing.
pub proof fn lemma_unknown_trap(d: DispView, c: CpuView, b: BusView, opcode: u16)
    requires
        opcode >= 0xAA00,
        opcode & 0xFBFF >= 0xAA00,
        d.answer_to(opcode) is None,
    ensures
        served(d, c, b, opcode) == (d, c, b, Err::<(), Error>(Error::UnimplementedTrap(opcode))),
{
    reveal(served);
}

/// The modifiers of an event have bit 7 while the mouse button is up, and from bit 8 on
/// one bit for each of the keys command, shift, caps lock, option and control that is down.
pub proof fn lemma_modifiers(button: bool, keys: Seq<u8>, k: int)
    requires
        0 <= k < 5,
        keys.len() == 16,
    ensures
        ({
            let m = modifiers_of(button, keys) as int;
            let weight: int = if k == 0 {
                0x100
            } else if k == 1 {
                0x200
            } else if k == 2 {
                0x400
            } else if k == 3 {
                0x800
            } else {
                0x1000
            };
            &&& m % 0x80 == 0
            &&& m < 0x2000
            &&& m / 0x80 % 2 == (if button { 0int } else { 1 })
            &&& m / weight % 2 == if keys[(0x37 + k) / 8] & (1u8 << ((0x37 + k) % 8) as u8) != 0 { 1int } else { 0 }
        }),
{
    let key = (0x37 + k) as u8;
    let x = keys[(key / 8) as int];
    let n = (key % 8) as u8;
    assert(n < 8 ==> ((x >> n) & 1 == 1 <==> x & (1u8 << n) != 0)) by (bit_vector);
}

/// A new mouse-down event that no mouse-up follows makes the button look pressed; the
/// mouse-up that follows it makes it look as before.
pub proof fn lemma_mouse_events_balance(d: DispView, down: QueuedEvent, up: QueuedEvent)
    requires
        down.what == 1,
        up.what == 2,
    ensures
        d.event_queue.len() == 0 ==> !d.unmatched_mouse_down(),
        ({
            let pressed = DispView { event_queue: d.event_queue.push(down), ..d };
            let released = DispView { event_queue: d.event_queue.push(down).push(up), ..d };
            &&& d.unmatched_mouse_down() ==> pressed.unmatched_mouse_down()
            &&& d.event_queue.len() == 0 ==> pressed.unmatched_mouse_down()
            &&& released.unmatched_mouse_down() == d.unmatched_mouse_down()
        }),
{
    let q = d.event_queue;
    lemma_count_of_longer(q, down, 1, q.len());
    lemma_count_of_longer(q, down, 2, q.len());
    lemma_count_of_longer(q.push(down), up, 1, q.len() + 1);
    lemma_count_of_longer(q.push(down), up, 2, q.len() + 1);
}

proof fn lemma_count_of_longer(q: Seq<QueuedEvent>, ev: QueuedEvent, what: u16, n: nat)
    requires
        n <= q.len(),
    ensures
        count_of(q.push(ev), what, n) == count_of(q, what, n),
    decreases n,
{
    if n > 0 {
        lemma_count_of_longer(q, ev, what, (n - 1) as nat);
    }
}

/// A trap word names a Toolbox trap where its bit 11 is set, by its low ten bits, else one
/// of the operating system, by its low eight; the bits between are flags.
pub proof fn lemma_trap_words(opcode: u16)
    ensures
        trap_number(opcode).0 <==> opcode / 0x800 % 2 == 1,
        trap_number(opcode).0 ==> trap_number(opcode).1 == opcode % 0x400,
        !trap_number(opcode).0 ==> trap_number(opcode).1 == opcode % 0x100,
{
    assert(opcode & 0x0800 != 0 <==> opcode / 0x800 % 2 == 1) by (bit_vector);
    assert(opcode & 0x03FF == opcode % 0x400 && opcode & 0x00FF == opcode % 0x100) by (bit_vector);
}

/// Serving a trap costs time by its kind: asking for events or the time, delays and fixed
/// arithmetic are free; copying pixels, drawing pictures and getting resources cost most,
/// the rest of the Resource Manager and its neighbours less, other Toolbox traps little,
/// and those of the operating system least. Flags of the word make no difference.
pub proof fn lemma_trap_costs(opcode: u16)
    ensures
        ({
            let tool = opcode / 0x800 % 2 == 1;
            let n: int = if tool { (opcode % 0x400) as int } else { (opcode % 0x100) as int };
            let free = n == 0x3B || (!tool && n == 0x31) || (tool && (n == 0x170 || n == 0x171 || n == 0x60 || n == 0x175 || n
                == 0x62 || n == 0x6C || n == 0x6E || n == 0x1EB || n == 0x1EC));
            let heavy = n == 0xEC || n == 0xF6 || (0x1A0 <= n <= 0x1A2) || n == 0x1BC;
            &&& free ==> trap_cost(opcode) == 0
            &&& !free && !tool ==> trap_cost(opcode) == 2
            &&& !free && tool && heavy ==> trap_cost(opcode) == 96
            &&& !free && tool && !heavy && 0x19D <= n <= 0x1CF ==> trap_cost(opcode) == 24
            &&& !free && tool && !heavy && (n < 0x19D || n > 0x1CF) ==> trap_cost(opcode) == 4
            &&& event_yield(opcode) <==> tool && (n == 0x170 || n == 0x171 || n == 0x60)
        }),
{
    lemma_trap_words(opcode);
}

/// A trap that is charged for takes its cost, and what it asked for itself, off what is
/// left of the tick, as long as the tick is not used up; what it asked for is settled.
pub proof fn lemma_trap_is_charged(s: RunnerView, opcode: u16, cap: Option<u32>)
    requires
        s.active is None,
        0 <= s.disp.hle_tick_cost < 0x1000_0000,
        s.tick_budget > trap_cost(opcode) + s.disp.hle_tick_cost,
        1 <= s.instructions_per_tick <= 0x7fff_ffff,
    ensures
        ({
            let (t, capped) = s.trap_charged(opcode, cap);
            &&& !capped
            &&& t.tick_budget == s.tick_budget - trap_cost(opcode) - s.disp.hle_tick_cost
            &&& t.disp.hle_tick_cost == 0
            &&& t.disp.tick_count == s.disp.tick_count
            &&& t.bus.mem == s.bus.mem
            &&& t.cpu == s.cpu
        }),
{
    reveal(RunnerView::trap_charged);
}

/// The clock stands while menus and controls are tracked, not while dialogs are.
pub proof fn lemma_tracking_holds_clock(opcode: u16)
    ensures
        freezes_ticks(opcode) <==> opcode == 0xA93D || opcode == 0xAD3D || opcode == 0xA80B || opcode == 0xAC0B || opcode
            == 0xA968 || opcode == 0xAD68,
{
    assert(opcode & 0xFBFF == 0xA93D <==> opcode == 0xA93D || opcode == 0xAD3D) by (bit_vector);
    assert(opcode & 0xFBFF == 0xA80B <==> opcode == 0xA80B || opcode == 0xAC0B) by (bit_vector);
    assert(opcode & 0xFBFF == 0xA968 <==> opcode == 0xA968 || opcode == 0xAD68) by (bit_vector);
}

/// Every trap is counted, in all and under its word, and no other word's count changes;
/// those that are served inline are counted apart too.
pub proof fn lemma_traps_are_counted(d: DispView, opcode: u16, pc: u32, i: int)
    requires
        d.trap_histogram.len() == 4096,
        d.inline_skipped.len() == 4096,
        d.trap_count < u64::MAX,
        d.trap_histogram[(opcode % 4096) as int] < u64::MAX,
        d.inline_skipped[(opcode % 4096) as int] < u64::MAX,
        0 <= i < 4096,
    ensures
        ({
            let e = d.trapped(opcode, pc);
            let f = d.trapped_inline(opcode);
            let k = opcode % 4096;
            &&& e.trap_count == d.trap_count + 1
            &&& f.trap_count == d.trap_count + 1
            &&& e.trap_histogram[i] == d.trap_histogram[i] + if i == k { 1int } else { 0 }
            &&& f.trap_histogram[i] == d.trap_histogram[i] + if i == k { 1int } else { 0 }
            &&& e.inline_skipped[i] == d.inline_skipped[i]
            &&& f.inline_skipped[i] == d.inline_skipped[i] + if i == k { 1int } else { 0 }
            &&& e.current_trap_word == opcode
            &&& f.current_trap_word == opcode
            &&& e.event_queue == d.event_queue
            &&& e.tick_count == d.tick_count
        }),
{
}

/// Traps count as the application's own work below 8 megabytes, while nothing is tracked,
/// and when they do more than ask for events or the time.
pub proof fn lemma_own_work_is_counted(d: DispView, opcode: u16, pc: u32)
    requires
        d.game_trap_count < u64::MAX,
    ensures
        ({
            let n = d.trapped(opcode, pc).game_trap_count - d.game_trap_count;
            let tool = opcode / 0x800 % 2 == 1;
            let k = opcode % 0x400;
            let asks = tool && (k == 0x170 || k == 0x171 || k == 0x60 || k == 0x175);
            &&& n == 0 || n == 1
            &&& n == 1 <==> pc < 0x80_0000 && !asks && !d.menu_tracking && !d.control_tracking && d.dialog is None
        }),
{
    lemma_trap_words(opcode);
}

} // verus!

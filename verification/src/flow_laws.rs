use vstd::prelude::*;

use crate::memory::{group_memory_lengths, group_memory_reads, BusView};
use crate::memory_laws::{lemma_signed, signed};
use crate::runner::RunnerView;
use crate::slice::SliceOrder;
use crate::spin::{spin_wait, SpinExit, SpinWait};
use crate::trap::{first_invalid, DispView, Error};

verus! {

broadcast use group_memory_lengths;

/// The mouse has left a region when it is above, below, to the left or to the right of the
/// region's bounds; the bottom and right edges lie outside. Without a region, or when the
/// mask does not ask for such events, there is nothing to leave.
pub proof fn lemma_mouse_leaves_region(d: DispView, b: BusView, mask: u16, rgn: u32)
    requires
        b.get_long(rgn) + 10 <= u32::MAX,
    ensures
        ({
            let p = b.get_long(rgn);
            let top = signed(b.get_word((p + 2) as u32));
            let left = signed(b.get_word((p + 4) as u32));
            let bottom = signed(b.get_word((p + 6) as u32));
            let right = signed(b.get_word((p + 8) as u32));
            let (v, h) = d.mouse_pos;
            d.mouse_left(b.mem, mask, rgn) <==> {
                &&& rgn != 0
                &&& mask >= 0x8000
                &&& v < top || v >= bottom || h < left || h >= right
            }
        }),
{
    let p = b.get_long(rgn);
    lemma_signed(b.get_word((p + 2) as u32));
    lemma_signed(b.get_word((p + 4) as u32));
    lemma_signed(b.get_word((p + 6) as u32));
    lemma_signed(b.get_word((p + 8) as u32));
    assert(mask & 0x8000 != 0 <==> mask >= 0x8000) by (bit_vector);
}

proof fn lemma_first_invalid(d: DispView, from: int, i: int)
    requires
        0 <= from <= i < d.windows.len(),
        d.windows[i].visible && d.windows[i].invalid,
        forall|j: int| from <= j < i ==> !((#[trigger] d.windows[j]).visible && d.windows[j].invalid),
    ensures
        first_invalid(d.windows, from) == Some(i),
    decreases i - from,
{
    if from < i {
        assert(!(d.windows[from].visible && d.windows[from].invalid));
        lemma_first_invalid(d, from + 1, i);
    }
}

/// The frontmost visible window with stale content gets the update event, which names it,
/// says where the mouse is, and stays due until the content is drawn.
pub proof fn lemma_stale_window_gets_update(d: DispView, i: int)
    requires
        0 <= i < d.windows.len(),
        d.windows[i].visible && d.windows[i].invalid,
        forall|j: int| 0 <= j < i ==> !((#[trigger] d.windows[j]).visible && d.windows[j].invalid),
        d.event_queue.len() == 0,
    ensures
        d.next_event(0x0040) matches Some(ev) && {
            &&& ev.what == 6
            &&& ev.message == d.windows[i].ptr
            &&& ev.where_v == d.mouse_pos.0
            &&& ev.where_h == d.mouse_pos.1
        },
        d.without_next_event(0x0040) == d,
{
    lemma_first_invalid(d, 0, i);
    crate::toolbox_laws::lemma_mask_admits(0x0040, 6);
    crate::toolbox_laws::lemma_mask_admits(0x0040, 1);
    crate::toolbox_laws::lemma_mask_admits(0x0040, 23);
    assert(0x0040u16 & (1u16 << 6u16) != 0 && 0x0040u16 & (1u16 << 1u16) == 0 && 0x0040u16 & 0x0400u16 == 0) by (bit_vector);
}

/// A queued event goes before the host's choice of a menu item, that before the
/// application's open event, and that before updates; each is gone once it was reported,
/// and what comes behind it is untouched.
pub proof fn lemma_order_of_events(d: DispView)
    requires
        d.event_queue.len() == 0,
        !d.sent_open_app_event,
        d.shell.native_menu_event is Some,
    ensures
        ({
            let e = d.shell.native_menu_event->0;
            let after = d.without_next_event(0xFFFF);
            let last = after.without_next_event(0xFFFF);
            &&& d.next_event(0xFFFF) matches Some(ev) && ev.what == 1 && ev.where_v == e.v && ev.where_h == e.h
            &&& after.shell.native_menu_event is None
            &&& !after.sent_open_app_event
            &&& after.next_event(0xFFFF) matches Some(ev) && ev.what == 23
            &&& last.sent_open_app_event
            &&& last.windows == d.windows
            &&& last.next_event(0xFFFF) matches Some(ev) ==> ev.what == 6
        }),
{
    crate::toolbox_laws::lemma_mask_admits(0xFFFF, 1);
    crate::toolbox_laws::lemma_mask_admits(0xFFFF, 6);
    crate::toolbox_laws::lemma_mask_admits(0xFFFF, 23);
    assert(0xFFFFu16 & (1u16 << 1u16) != 0 && 0xFFFFu16 & (1u16 << 6u16) != 0 && 0xFFFFu16 & 0x0400u16 != 0) by (bit_vector);
}

/// A trap that nothing serves is passed over: the application goes on behind its word, and
/// the machine runs on.
pub proof fn lemma_unserved_trap_is_passed_over(s: RunnerView, o: SliceOrder, opcode: u16)
    requires
        s.toolbox_called(o, opcode).1 matches Err(Error::UnimplementedTrap(_)),
    ensures
        ({
            let (t, capped, flow, null) = s.trap_dispatched(o, opcode);
            &&& t.cpu.pc == s.cpu.ppc.wrapping_add(2)
            &&& t.halted == s.halted
            &&& !capped
            &&& flow is Run
            &&& !null
            &&& t.tick_budget == s.tick_budget
        }),
{
    reveal(RunnerView::trap_dispatched);
    reveal(RunnerView::toolbox_called);
}

/// A trap that ends the application halts the machine there, with nothing to launch, and
/// says which trap it was.
pub proof fn lemma_ended_application_halts(s: RunnerView, opcode: u16, pc: u32)
    requires
        s.cpu.dar.len() == 16,
        s.disp.pending_launch is None,
    ensures
        ({
            let (t, flow) = s.trap_ended(opcode, pc);
            &&& flow is Halt
            &&& t.halted
            &&& t.halted_trap == Some(opcode)
            &&& t.halted_pc == Some(pc)
            &&& t.halted_sp == Some(s.cpu.dar[15])
            &&& t.halted_d0 == Some(s.cpu.dar[0])
            &&& t.bus == s.bus
            &&& t.cpu == s.cpu
        }),
{
    reveal(RunnerView::trap_ended);
}

/// Filter procedures get nothing before the dialog is drawn, nothing while they deal with
/// an event, and no second null event in one tick; else they get one when the mouse button
/// is up.
pub proof fn lemma_filter_is_due(s: RunnerView)
    requires
        s.disp.dialog is Some,
    ensures
        ({
            let d = s.disp.dialog->0;
            &&& d.filter_proc == 0 ==> !s.filter_due()
            &&& !d.draw_procs_done ==> !s.filter_due()
            &&& d.last_filter_event is Some ==> !s.filter_due()
            &&& !s.filter_event_pending(d.dialog_ptr) && s.dialog_filter_last_null_event_tick == Some(
                (d.dialog_ptr, s.disp.tick_count),
            ) ==> !s.filter_due()
            &&& d.filter_proc != 0 && d.draw_procs_done && d.last_filter_event is None && (!s.disp.mouse_button
                && !s.disp.shell.user_item_mouse_down && s.dialog_filter_last_null_event_tick is None) ==> s.filter_due()
            &&& d.filter_proc != 0 && d.draw_procs_done && d.last_filter_event is None && s.filter_event_pending(d.dialog_ptr)
                ==> s.filter_due()
        }),
{
}

/// A dialog's draw procedures go before its filter procedure, and the menu hook before
/// both.
pub proof fn lemma_order_of_procedures(s: RunnerView, opcode: u16)
    ensures
        s.hook_called(opcode).1 ==> s.tracking_called(opcode) == s.hook_called(opcode),
        !s.hook_called(opcode).1 && s.drawn().1 ==> s.tracking_called(opcode) == s.drawn(),
        !s.hook_called(opcode).1 && !s.drawn().1 && !s.drawn().0.filter_due() ==> s.tracking_called(opcode) == (
            s.drawn().0,
            false,
        ),
{
    reveal(RunnerView::tracking_called);
}

/// A tick that calls nobody leaves the registers.
proof fn lemma_quiet_tick_keeps_registers(s: RunnerView)
    requires
        s.active is None,
    ensures
        s.ticked().active is None ==> s.ticked().cpu == s.cpu,
{
    reveal(RunnerView::ticked);
    reveal(RunnerView::cursor_fired);
    reveal(RunnerView::vbl_fired);
    reveal(RunnerView::timer_fired);
    reveal(RunnerView::interrupted);
}

/// A tick keeps the size of RAM.
pub proof fn lemma_tick_keeps_ram_size(s: RunnerView)
    ensures
        s.ticked().bus.mem.len() == s.bus.mem.len(),
{
    reveal(RunnerView::ticked);
    reveal(RunnerView::interrupted);
    let a = s.clocked();
    assert(a.bus.mem.len() == s.bus.mem.len()) by {
        reveal(crate::ticks::with_clock);
    }
    let b = a.cursor_fired();
    assert(b.bus.mem.len() == a.bus.mem.len()) by {
        reveal(RunnerView::cursor_fired);
        reveal(crate::stubs::cursor_stub);
    }
    let c = b.vbl_fired();
    assert(c.bus.mem.len() == b.bus.mem.len()) by {
        reveal(RunnerView::vbl_fired);
        reveal(crate::stubs::vbl_stub);
        lemma_countdown_keeps_ram_size(b.bus, b.disp.vbl_tasks, 0);
    }
    let now = (s.tick().wrapping_add(1) * crate::timers::SUBTICKS_PER_TICK) as u64;
    assert(c.timer_fired(now).bus.mem.len() == c.bus.mem.len()) by {
        reveal(RunnerView::timer_fired);
        reveal(crate::stubs::timer_stub);
    }
}

proof fn lemma_countdown_keeps_ram_size(b: BusView, tasks: Seq<crate::events::VblTask>, i: int)
    ensures
        crate::timers::vbl_countdown(b, tasks, i).0.mem.len() == b.mem.len(),
    decreases tasks.len() - i,
{
    if 0 <= i < tasks.len() {
        let at = tasks[i].task_ptr.wrapping_add(10);
        let count = b.get_word(at) as i16;
        lemma_countdown_keeps_ram_size(b, tasks, i + 1);
        lemma_countdown_keeps_ram_size(b.word(at, (count - 1) as u16), tasks, i + 1);
    }
}

proof fn lemma_quiet_ticks_keep_registers(s: RunnerView, n: nat, cap: Option<u32>)
    requires
        s.active is None,
    ensures
        ({
            let (t, ended) = s.ticked_until(n, cap);
            &&& !(ended is Interrupted) ==> t.cpu == s.cpu && t.active is None
            &&& ended is Interrupted ==> t.active is Some
            &&& t.bus.mem.len() == s.bus.mem.len()
        }),
    decreases n,
{
    if n > 0 && !s.reached(cap) {
        lemma_quiet_tick_keeps_registers(s);
        lemma_tick_keeps_ram_size(s);
        if s.ticked().active is None {
            lemma_quiet_ticks_keep_registers(s.ticked(), (n - 1) as nat, cap);
        }
    }
}

/// A wait loop whose end is skipped to ends as if it had run: either the tick count that
/// it looks at is renewed on the stack, or the loop has taken it off the stack into its
/// register, less what it subtracts, and the application goes on behind the loop.
pub proof fn lemma_skipped_loop(s: RunnerView, pc: u32, cap: Option<u32>, wait: SpinWait)
    requires
        s.active is None,
        s.cpu.dar.len() == 16,
        s.cpu.dar[15] + 4 <= s.bus.mem.len() <= 0x1_0000_0000,
        spin_wait(s.cpu, s.bus, pc) == Some(wait),
        s.advanced_to(wait.until, cap).1 is Advanced,
        s.total_instructions + 8 <= u64::MAX,
    ensures
        ({
            let (t, capped, n) = s.spun(pc, cap);
            let (u, ended) = s.advanced_to(wait.until, cap);
            &&& !capped
            &&& t.active is None
            &&& wait.exit is Renew ==> {
                &&& n == 0
                &&& t.bus.get_long(s.cpu.dar[15]) == t.disp.tick_count
                &&& t.cpu == s.cpu
            }
            &&& wait.exit is Leave && wait.exit->data < 8 ==> {
                &&& n == wait.exit->instructions
                &&& t.cpu.dar[wait.exit->data as int] == t.disp.tick_count.wrapping_sub(wait.exit->less)
                &&& t.cpu.dar[15] == s.cpu.dar[15].wrapping_add(4)
                &&& forall|i: int| 0 <= i < 15 && i != wait.exit->data ==> #[trigger] t.cpu.dar[i] == s.cpu.dar[i]
                &&& t.cpu.pc == wait.exit->pc
                &&& t.bus == u.bus
            }
        }),
{
    broadcast use group_memory_reads;

    let n = wait.until.wrapping_sub(s.disp.tick_count) as nat;
    lemma_quiet_ticks_keep_registers(s, n, cap);
    let (u, ended) = s.advanced_to(wait.until, cap);
    assert(s.advanced_to(wait.until, cap) == s.ticked_until(n, cap));
    assert(u.cpu == s.cpu);
    let (t, capped, k) = s.spun(pc, cap);
    match wait.exit {
        SpinExit::Renew => {
            assert(t.bus == u.bus.long(s.cpu.dar[15], u.disp.tick_count));
            assert(t.disp.tick_count == u.disp.tick_count);
            assert(t.bus.get_long(s.cpu.dar[15]) == t.disp.tick_count);
        },
        SpinExit::Leave { data, less, pc: behind, instructions } => {
            assert(t.cpu.dar == s.cpu.dar.update(15, s.cpu.dar[15].wrapping_add(4)).update(
                data as int,
                u.disp.tick_count.wrapping_sub(less),
            ));
            assert(t.cpu.pc == behind && k == instructions);
        },
    }
}

/// A sleeper that the application has left gets no event: the sleep is over, memory stays
/// as it is, and nothing is taken from the queue.
pub proof fn lemma_left_sleeper_is_dropped(d: DispView, b: BusView, pc: u32, sp: u32)
    requires
        d.pending_wait_next_event_return matches Some(p) && p.resume_pc is Some && p.resume_sp is Some && (p.resume_pc
            != Some(pc) || p.resume_sp != Some(sp)),
    ensures
        ({
            let (e, c, ended) = d.delivered(b, pc, sp);
            &&& !ended
            &&& c == b
            &&& e.pending_wait_next_event_return is None
            &&& e.pending_wait_sleep_ticks == 0
            &&& e.event_queue == d.event_queue
        }),
{
    reveal(DispView::delivered);
}

/// The mouse is over a button of a dialog when it is down in an item of that kind, disabled
/// or not; the dialog's corner is where its items are measured from.
pub proof fn lemma_mouse_is_over_button(d: DispView, i: int)
    requires
        d.dialog is Some,
        0 <= i < d.dialog->0.items.len(),
    ensures
        ({
            let g = d.dialog->0;
            let item = g.items[i];
            let v = d.mouse_pos.0 - g.bounds.0;
            let h = d.mouse_pos.1 - g.bounds.1;
            let inside = item.rect.0 <= v < item.rect.2 && item.rect.1 <= h < item.rect.3;
            &&& d.mouse_button && inside && item.item_type % 128 == 4 ==> d.mouse_on_dialog_button()
            &&& d.mouse_button && inside && item.item_type % 128 == 0 && item.proc_ptr == 0 ==> d.mouse_on_plain_user_item()
            &&& !d.mouse_button ==> !d.mouse_on_dialog_button() && !d.mouse_on_plain_user_item()
            &&& !inside && g.items.len() == 1 ==> !d.mouse_on_dialog_button() && !d.mouse_on_plain_user_item()
            &&& item.item_type % 128 != 4 && g.items.len() == 1 ==> !d.mouse_on_dialog_button()
            &&& (item.item_type % 128 != 0 || item.proc_ptr != 0) && g.items.len() == 1 ==> !d.mouse_on_plain_user_item()
        }),
{
    let g = d.dialog->0;
    let item = g.items[i];
    let t = item.item_type;
    assert(t & 0x7f == t % 128) by (bit_vector);
    assert(crate::dialog::hits(item, g.bounds.0, g.bounds.1, d.mouse_pos.0, d.mouse_pos.1) <==> item.rect.0 <= d.mouse_pos.0
        - g.bounds.0 < item.rect.2 && item.rect.1 <= d.mouse_pos.1 - g.bounds.1 < item.rect.3);
    assert(crate::dialog::is_button(g.items[i]) <==> t % 128 == 4);
    assert(crate::dialog::is_plain_user_item(g.items[i]) <==> t % 128 == 0 && item.proc_ptr == 0);
    if g.items.len() == 1 {
        assert(i == 0);
    }
}

} // verus!

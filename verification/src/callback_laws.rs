use vstd::prelude::*;

use crate::dialog::{DialogItem, DialogView};
use crate::dialogs::{draw_stub, filter_stub, FilterCall};
use crate::events::{first_actionable, PendingFileCompletion};
use crate::memory::{
    apart, group_memory_bytes, group_memory_lengths, group_memory_reads, long_at, word_at, BusView,
};
use crate::memory_laws::{lemma_signed_back, signed};
use crate::runner::RunnerView;
use crate::sound::{PendingDoubleBackCallback, PendingSoundCallback, SndCommand};
use crate::stubs::{doubleback_stub, file_stub, sound_file_stub, sound_stub};
use crate::trap::DispView;

verus! {

broadcast use group_memory_lengths;

/// A completed file request is published with its result, and its completion routine is
/// called with the parameter block's address in A0 and the result in D0. Requests are
/// published in the order in which they completed, one at a time.
pub proof fn lemma_file_completion_is_called(s: RunnerView, done: PendingFileCompletion)
    requires
        s.active is None,
        s.cpu.dar.len() == 16,
        s.disp.pending_file_completions.len() > 0,
        s.disp.pending_file_completions[0] == done,
        s.bus.mem.len() <= 0x1_0000_0000,
        4 <= s.cpu.dar[15] <= s.bus.mem.len(),
        done.parameter_block + 18 <= s.bus.mem.len(),
        ({
            let stub = if s.file_completion_trampoline == 0 { s.bus.stubs } else { s.file_completion_trampoline };
            &&& s.file_completion_trampoline == 0 ==> 0 < stub <= 0x7F00
            &&& s.file_completion_trampoline != 0 ==> s.bus.get_word(stub) == 0x4EB9 && s.bus.get_word((stub + 6) as u32)
                == 0x4E75
            &&& stub + 8 <= s.bus.mem.len()
            &&& apart(stub, 8, done.parameter_block, 18)
            &&& apart(stub, 8, (s.cpu.dar[15] - 4) as u32, 4)
            &&& apart(done.parameter_block, 18, (s.cpu.dar[15] - 4) as u32, 4)
        }),
    ensures
        ({
            let (t, called) = s.file_completed();
            let stub = if s.file_completion_trampoline == 0 { s.bus.stubs } else { s.file_completion_trampoline };
            &&& signed(t.bus.get_word((done.parameter_block + 16) as u32)) == done.result
            &&& t.disp.pending_file_completions == s.disp.pending_file_completions.skip(1)
            &&& called <==> done.completion_addr != 0
            &&& !called ==> t.cpu == s.cpu && t.active is None
            &&& called ==> {
                &&& t.active matches Some(x) && x.source is FileCompletion && x.resume_pc == s.cpu.pc && x.resume_sp
                    == s.cpu.dar[15]
                &&& t.cpu.pc == stub
                &&& t.cpu.dar[8] == done.parameter_block
                &&& t.cpu.dar[0] == if done.result < 0 { 0x1_0000_0000 + done.result } else { done.result as int }
                &&& t.bus.get_word(stub) == 0x4EB9
                &&& t.bus.get_long((stub + 2) as u32) == done.completion_addr
                &&& t.bus.get_word((stub + 6) as u32) == 0x4E75
                &&& t.bus.get_long((s.cpu.dar[15] - 4) as u32) == s.cpu.pc
            }
        }),
{
    broadcast use {group_memory_reads, group_memory_bytes};

    reveal(RunnerView::file_completed);
    reveal(RunnerView::interrupted);
    reveal(file_stub);
    lemma_signed_back(done.result);
    let r = done.result;
    assert(r < 0 ==> r as i32 as u32 == 0x1_0000_0000 + r) by (bit_vector);
    assert(r >= 0 ==> r as i32 as u32 == r) by (bit_vector);
    assert(s.disp.pending_file_completions.subrange(1, s.disp.pending_file_completions.len() as int)
        =~= s.disp.pending_file_completions.skip(1));
}

/// At `t` stands code that saves D0-D3/A0-A3, pushes the longs `first` and `second`, calls
/// `routine`, sets the stack pointer to `sp`, restores the registers and returns.
pub open spec fn calls_with_two(b: BusView, t: u32, first: u32, second: u32, routine: u32, sp: u32) -> bool {
    &&& has_two_argument_code(b, t)
    &&& b.get_long((t + 6) as u32) == first
    &&& b.get_long((t + 12) as u32) == second
    &&& b.get_long((t + 18) as u32) == routine
    &&& b.get_long((t + 24) as u32) == sp
}

/// The same without its operands.
pub open spec fn has_two_argument_code(b: BusView, t: u32) -> bool {
    &&& b.get_word(t) == 0x48E7
    &&& b.get_word((t + 2) as u32) == 0xF0F0
    &&& b.get_word((t + 4) as u32) == 0x2F3C
    &&& b.get_word((t + 10) as u32) == 0x2F3C
    &&& b.get_word((t + 16) as u32) == 0x4EB9
    &&& b.get_word((t + 22) as u32) == 0x2E7C
    &&& b.get_word((t + 28) as u32) == 0x4CDF
    &&& b.get_word((t + 30) as u32) == 0x0F0F
    &&& b.get_word((t + 32) as u32) == 0x4E75
}

/// The oldest sound callback that carries a command is called with its channel and with
/// the command, which stands behind the code that calls it; the callback is owed no longer.
#[verifier::rlimit(30)]
pub proof fn lemma_sound_callback_is_called(s: RunnerView, addr: u32, chan: u32, cmd: SndCommand)
    requires
        s.active is None,
        s.cpu.dar.len() == 16,
        s.disp.sound.pending_sound_callbacks.len() > 0,
        s.disp.sound.pending_sound_callbacks[0] == (PendingSoundCallback::Command {
            callback_addr: addr,
            chan_ptr: chan,
            cmd,
        }),
        addr != 0,
        s.bus.mem.len() <= 0x1_0000_0000,
        36 <= s.cpu.dar[15] <= s.bus.mem.len(),
        ({
            let stub = if s.sound_callback_trampoline == 0 { s.bus.stubs } else { s.sound_callback_trampoline };
            &&& s.sound_callback_trampoline == 0 ==> 0 < stub <= 0x7F00
            &&& s.sound_callback_trampoline != 0 ==> has_two_argument_code(s.bus, stub)
            &&& stub + 42 <= s.bus.mem.len()
            &&& apart(stub, 42, (s.cpu.dar[15] - 4) as u32, 4)
        }),
    ensures
        ({
            let (t, called) = s.sound_fired();
            let stub = if s.sound_callback_trampoline == 0 { s.bus.stubs } else { s.sound_callback_trampoline };
            &&& called
            &&& t.active matches Some(x) && x.source is SoundCallback && x.resume_pc == s.cpu.pc && x.resume_sp
                == s.cpu.dar[15]
            &&& t.cpu.pc == stub
            &&& t.bus.get_long((s.cpu.dar[15] - 4) as u32) == s.cpu.pc
            &&& calls_with_two(t.bus, stub, chan, (stub + 34) as u32, addr, (s.cpu.dar[15] - 36) as u32)
            &&& t.bus.get_word((stub + 34) as u32) == cmd.cmd
            &&& signed(t.bus.get_word((stub + 36) as u32)) == cmd.param1
            &&& t.bus.get_long((stub + 38) as u32) == cmd.param2
            &&& t.disp.sound.pending_sound_callbacks == s.disp.sound.pending_sound_callbacks.skip(1)
        }),
{
    broadcast use {group_memory_reads, group_memory_bytes};

    reveal(RunnerView::sound_fired);
    reveal(RunnerView::interrupted);
    reveal(sound_stub);
    lemma_signed_back(cmd.param1);
    assert(s.disp.sound.pending_sound_callbacks.remove(0) =~= s.disp.sound.pending_sound_callbacks.skip(1));
}

/// A sound-file completion is called with its channel.
pub proof fn lemma_sound_file_completion_is_called(s: RunnerView, addr: u32, chan: u32)
    requires
        s.active is None,
        s.cpu.dar.len() == 16,
        s.disp.sound.pending_sound_callbacks.len() > 0,
        s.disp.sound.pending_sound_callbacks[0] == (PendingSoundCallback::FileCompletion {
            callback_addr: addr,
            chan_ptr: chan,
        }),
        addr != 0,
        s.bus.mem.len() <= 0x1_0000_0000,
        36 <= s.cpu.dar[15] <= s.bus.mem.len(),
        s.sound_file_completion_trampoline == 0,
        0 < s.bus.stubs <= 0x7F00,
        s.bus.stubs + 28 <= s.bus.mem.len(),
        apart(s.bus.stubs, 28, (s.cpu.dar[15] - 4) as u32, 4),
    ensures
        ({
            let (t, called) = s.sound_fired();
            let stub = s.bus.stubs;
            &&& called
            &&& t.active matches Some(x) && x.source is SoundFileCompletion && x.resume_pc == s.cpu.pc
            &&& t.cpu.pc == stub
            &&& t.bus.get_word(stub) == 0x48E7
            &&& t.bus.get_word((stub + 2) as u32) == 0xF0F0
            &&& t.bus.get_word((stub + 4) as u32) == 0x2F3C
            &&& t.bus.get_long((stub + 6) as u32) == chan
            &&& t.bus.get_word((stub + 10) as u32) == 0x4EB9
            &&& t.bus.get_long((stub + 12) as u32) == addr
            &&& t.bus.get_word((stub + 16) as u32) == 0x2E7C
            &&& t.bus.get_long((stub + 18) as u32) == s.cpu.dar[15] - 36
            &&& t.bus.get_word((stub + 22) as u32) == 0x4CDF
            &&& t.bus.get_word((stub + 24) as u32) == 0x0F0F
            &&& t.bus.get_word((stub + 26) as u32) == 0x4E75
            &&& t.disp.sound.pending_sound_callbacks == s.disp.sound.pending_sound_callbacks.skip(1)
        }),
{
    broadcast use {group_memory_reads, group_memory_bytes};

    reveal(RunnerView::sound_fired);
    reveal(RunnerView::interrupted);
    reveal(sound_file_stub);
    assert(s.disp.sound.pending_sound_callbacks.remove(0) =~= s.disp.sound.pending_sound_callbacks.skip(1));
}

/// The oldest refill request is handed to the application with its channel and the buffer
/// that ran out, whose address the header holds; the buffer says that it is not ready.
#[verifier::rlimit(30)]
pub proof fn lemma_refill_is_asked_for(s: RunnerView, cb: PendingDoubleBackCallback)
    requires
        s.active is None,
        s.cpu.dar.len() == 16,
        s.disp.sound.pending_callbacks.len() > 0,
        s.disp.sound.pending_callbacks[0] == cb,
        cb.callback_addr != 0,
        cb.exhausted_buffer_index <= 1,
        cb.header_ptr + 20 <= s.bus.mem.len() <= 0x1_0000_0000,
        36 <= s.cpu.dar[15] <= s.bus.mem.len(),
        ({
            let slot = (cb.header_ptr + 12 + 4 * cb.exhausted_buffer_index) as u32;
            let buffer = s.bus.get_long(slot);
            let stub = if s.sound_doubleback_trampoline == 0 { s.bus.stubs } else { s.sound_doubleback_trampoline };
            &&& 0 < buffer
            &&& buffer + 8 <= s.bus.mem.len()
            &&& s.sound_doubleback_trampoline == 0 ==> 0 < stub <= 0x7F00
            &&& s.sound_doubleback_trampoline != 0 ==> has_two_argument_code(s.bus, stub)
            &&& stub + 34 <= s.bus.mem.len()
            &&& apart(stub, 34, (s.cpu.dar[15] - 4) as u32, 4)
            &&& apart(stub, 34, buffer, 8)
            &&& apart(buffer, 8, (s.cpu.dar[15] - 4) as u32, 4)
        }),
    ensures
        ({
            let (t, called) = s.doubleback_fired();
            let buffer = s.bus.get_long((cb.header_ptr + 12 + 4 * cb.exhausted_buffer_index) as u32);
            let stub = if s.sound_doubleback_trampoline == 0 { s.bus.stubs } else { s.sound_doubleback_trampoline };
            let before = s.bus.get_long((buffer + 4) as u32);
            let after = t.bus.get_long((buffer + 4) as u32);
            &&& called
            &&& t.active matches Some(x) && x.source is SoundDoubleBack && x.resume_pc == s.cpu.pc
            &&& t.cpu.pc == stub
            &&& calls_with_two(t.bus, stub, cb.chan_ptr, buffer, cb.callback_addr, (s.cpu.dar[15] - 36) as u32)
            &&& after % 2 == 0
            &&& after / 2 == before / 2
            &&& t.disp.sound.pending_callbacks == s.disp.sound.pending_callbacks.skip(1)
        }),
{
    broadcast use {group_memory_reads, group_memory_bytes};

    reveal(RunnerView::doubleback_fired);
    reveal(RunnerView::interrupted);
    reveal(doubleback_stub);
    let buffer = s.bus.get_long((cb.header_ptr + 12 + 4 * cb.exhausted_buffer_index) as u32);
    let w = s.bus.get_long((buffer + 4) as u32);
    assert((w & !0x01u32) % 2 == 0 && (w & !0x01u32) / 2 == w / 2) by (bit_vector);
    assert(s.disp.sound.pending_callbacks.remove(0) =~= s.disp.sound.pending_callbacks.skip(1));
}

/// A procedure pointer leads to itself where a procedure begins there, else from A5.
pub proof fn lemma_procedures_are_found(s: RunnerView, addr: u32)
    requires
        addr != 0,
    ensures
        ({
            let w = s.bus.get_word(addr);
            let based = s.cpu.dar[13].wrapping_add(addr);
            let v = s.bus.get_word(based);
            let begins = w == 0x4E56 || w == 0x48E7 || w == 0x4EF9 || w == 0x4EFA;
            let begins_based = based != 0 && (v == 0x4E56 || v == 0x48E7 || v == 0x4EF9 || v == 0x4EFA);
            &&& begins ==> s.proc_entry(addr) == Some(addr)
            &&& !begins && begins_based ==> s.proc_entry(addr) == Some(based)
            &&& !begins && !begins_based ==> s.proc_entry(addr) is None
        }),
{
}

/// A draw procedure is called with its dialog and the number of its item, in the dialog's
/// port; the stack is as it was when it returns, whatever it pops.
#[verifier::rlimit(30)]
pub proof fn lemma_draw_procedure_is_called(s: RunnerView, addr: u32, item: i16, dialog: u32, modeless: bool, entry: u32)
    requires
        s.active is None,
        s.cpu.dar.len() == 16,
        addr != 0,
        s.proc_entry(addr) == Some(entry),
        0x1400 <= s.bus.mem.len() <= 0x1_0000_0000,
        0x1400 <= s.cpu.dar[15] <= s.bus.mem.len(),
        s.dialog_draw_trampoline == 0,
    ensures
        ({
            let (t, called) = s.draw_called(addr, item, dialog, modeless);
            &&& called
            &&& t.active matches Some(x) && x.source is DialogDrawProc && x.resume_pc == s.cpu.pc && x.resume_sp
                == s.cpu.dar[15]
            &&& t.cpu.pc == 0x1200
            &&& t.bus.get_long((s.cpu.dar[15] - 4) as u32) == s.cpu.pc
            &&& t.bus.get_word(0x1200) == 0x48E7
            &&& t.bus.get_word(0x1202) == 0xF0F0
            &&& t.bus.get_word(0x1204) == 0x2F3C
            &&& t.bus.get_long(0x1206) == dialog
            &&& t.bus.get_word(0x120A) == 0x3F3C
            &&& signed(t.bus.get_word(0x120C)) == item
            &&& t.bus.get_word(0x120E) == 0x4EB9
            &&& t.bus.get_long(0x1210) == entry
            &&& t.bus.get_word(0x1214) == 0x4FF9
            &&& t.bus.get_long(0x1216) == s.cpu.dar[15] - 36
            &&& t.bus.get_word(0x121A) == 0x4CDF
            &&& t.bus.get_word(0x121C) == 0x0F0F
            &&& t.bus.get_word(0x121E) == 0x4E75
            &&& t.disp.current_port == dialog
            &&& modeless ==> t.disp.active_modeless_dialog_draw_proc == Some(dialog)
            &&& !modeless ==> t.disp.active_modeless_dialog_draw_proc == s.disp.active_modeless_dialog_draw_proc
        }),
{
    broadcast use {group_memory_reads, group_memory_bytes};

    reveal(RunnerView::draw_called);
    reveal(RunnerView::interrupted);
    reveal(draw_stub);
    lemma_signed_back(item);
}

/// The draw procedures of a modal dialog are called in their order, each once; when none is
/// left the dialog is drawn.
pub proof fn lemma_dialog_is_drawn_in_order(s: RunnerView, d: DialogView)
    requires
        s.active is None,
        s.disp.dialog == Some(d),
        !d.draw_procs_done,
    ensures
        ({
            let (t, called) = s.drawn();
            &&& d.draw_proc_queue.len() == 0 ==> !called && (t.disp.dialog matches Some(e) && e.draw_procs_done && e.items
                == d.items && e.filter_proc == d.filter_proc)
            &&& d.draw_proc_queue.len() > 0 ==> (t.disp.dialog matches Some(e) && !e.draw_procs_done && e.draw_proc_queue
                == d.draw_proc_queue.skip(1))
            &&& d.draw_proc_queue.len() > 0 ==> (called <==> d.draw_proc_queue[0].0 != 0 && s.proc_entry(
                d.draw_proc_queue[0].0,
            ) is Some)
        }),
{
    reveal(RunnerView::modal_drawn);
    reveal(RunnerView::draw_called);
    reveal(RunnerView::interrupted);
    if d.draw_proc_queue.len() > 0 {
        assert(d.draw_proc_queue.subrange(1, d.draw_proc_queue.len() as int) =~= d.draw_proc_queue.skip(1));
    }
}

/// The menu hook is called while a menu is tracked with the mouse button down, and at no
/// other time.
pub proof fn lemma_menu_hook_is_called(s: RunnerView, opcode: u16)
    requires
        s.active is None,
    ensures
        ({
            let (t, called) = s.hook_called(opcode);
            let hook = s.bus.get_long(0xA30);
            &&& called <==> s.proc_entry(hook) is Some && (opcode == 0xA93D || opcode == 0xAD3D) && s.disp.menu_tracking
                && s.bus.get_byte(0x172) == 0
            &&& !called ==> t == s
            &&& called ==> (t.active matches Some(x) && x.source is MenuHook && x.resume_pc == s.cpu.pc && x.resume_sp
                == s.cpu.dar[15])
        }),
{
    reveal(RunnerView::interrupted);
    assert(opcode & 0xFBFF == 0xA93D <==> opcode == 0xA93D || opcode == 0xAD3D) by (bit_vector);
}

/// The filter procedure is handed the oldest mouse, key or update event that waits, and
/// that event leaves the queue; the others stay in their order.
pub proof fn lemma_filter_gets_oldest_event(d: DispView, g: DialogView, dialog: u32, in_order: bool, ticks: u32, i: int)
    requires
        0 <= i < d.event_queue.len(),
        ({
            let w = d.event_queue[i].what;
            w == 1 || w == 2 || w == 3 || w == 4 || w == 6
        }),
        forall|j: int|
            0 <= j < i ==> {
                let w = (#[trigger] d.event_queue[j]).what;
                w != 1 && w != 2 && w != 3 && w != 4 && w != 6
            },
    ensures
        d.filter_event(dialog, in_order) == (d.event_queue[i], false),
        d.filtering(g, d.event_queue[i], ticks).event_queue == d.event_queue.subrange(0, i) + d.event_queue.subrange(
            i + 1,
            d.event_queue.len() as int,
        ),
        d.filtering(g, d.event_queue[i], ticks).dialog matches Some(e) && e.last_filter_event == Some(d.event_queue[i]),
        d.filtering(g, d.event_queue[i], ticks).current_port == g.dialog_ptr,
{
    lemma_first_actionable(d, 0, i);
    assert(d.event_queue.remove(i) =~= d.event_queue.subrange(0, i) + d.event_queue.subrange(
        i + 1,
        d.event_queue.len() as int,
    ));
}

proof fn lemma_first_actionable(d: DispView, from: int, i: int)
    requires
        0 <= from <= i < d.event_queue.len(),
        crate::events::actionable(d.event_queue[i].what),
        forall|j: int| 0 <= j < i ==> !crate::events::actionable((#[trigger] d.event_queue[j]).what),
    ensures
        first_actionable(d.event_queue, from) == Some(i),
    decreases i - from,
{
    if from < i {
        lemma_first_actionable(d, from + 1, i);
    }
}

/// A filter procedure is called with the dialog, the event record and the place for the
/// item that was hit; its result goes to the place that `ModalDialog` looks at, and the
/// stack is as it was when it returns.
#[verifier::rlimit(40)]
pub proof fn lemma_filter_is_called(b: BusView, c: FilterCall)
    requires
        0x2000 <= b.mem.len() <= 0x1_0000_0000,
        0x2000 <= c.sp <= b.mem.len(),
    ensures
        ({
            let (d, t) = filter_stub(b, 0, c);
            &&& t == 0x1240
            &&& d.get_word(t) == 0x48E7
            &&& d.get_word((t + 2) as u32) == 0xF0F0
            &&& d.get_word((t + 4) as u32) == 0x4267
            &&& d.get_word((t + 6) as u32) == 0x2F3C
            &&& d.get_long((t + 8) as u32) == c.dialog
            &&& d.get_word((t + 12) as u32) == 0x2F3C
            &&& d.get_long((t + 14) as u32) == c.event_ptr
            &&& d.get_word((t + 18) as u32) == 0x2F3C
            &&& d.get_long((t + 20) as u32) == c.item_hit
            &&& d.get_word((t + 24) as u32) == 0x4EB9
            &&& d.get_long((t + 26) as u32) == c.filter
            &&& d.get_word((t + 30) as u32) == 0x33D7
            &&& d.get_long((t + 32) as u32) == c.result_ptr
            &&& d.get_word((t + 36) as u32) == 0x2E7C
            &&& d.get_long((t + 38) as u32) == c.sp
            &&& d.get_word((t + 42) as u32) == 0x4CDF
            &&& d.get_word((t + 44) as u32) == 0x0F0F
            &&& d.get_word((t + 46) as u32) == 0x4E75
        }),
{
    reveal(filter_stub);
    let t = 0x1240u32;
    let b1 = crate::dialogs::filter_code(b, t).long((t + 8) as u32, c.dialog).long((t + 14) as u32, c.event_ptr).long(
        (t + 20) as u32,
        c.item_hit,
    ).long((t + 26) as u32, c.filter).long((t + 32) as u32, c.result_ptr);
    let b2 = b1.filled(c.sp.wrapping_sub(50).wrapping_sub(crate::dialogs::FILTER_STACK_CLEAR), 2048, 0);
    assert forall|a: u32| t <= a < t + 48 implies #[trigger] b2.get_byte(a) == b1.get_byte(a) by {
        broadcast use group_memory_bytes;

    }
    assert forall|a: u32| t <= a && a + 2 <= t + 48 implies #[trigger] word_at(b2.mem, a) == word_at(b1.mem, a) by {
        assert(b2.get_byte(a) == b1.get_byte(a) && b2.get_byte((a + 1) as u32) == b1.get_byte((a + 1) as u32));
        crate::interrupt_laws::lemma_same_word(b2, b1, a);
    }
    assert forall|a: u32| t <= a && a + 4 <= t + 48 implies #[trigger] long_at(b2.mem, a) == long_at(b1.mem, a) by {
        assert(b2.get_byte(a) == b1.get_byte(a) && b2.get_byte((a + 1) as u32) == b1.get_byte((a + 1) as u32));
        assert(b2.get_byte((a + 2) as u32) == b1.get_byte((a + 2) as u32) && b2.get_byte((a + 3) as u32) == b1.get_byte(
            (a + 3) as u32,
        ));
        crate::interrupt_laws::lemma_same_long(b2, b1, a);
    }
    broadcast use group_memory_reads;

}

/// A point hits an item of a dialog exactly when it lies in the item's rectangle, moved to
/// where the dialog is: on its upper and left edges, not on its lower and right ones.
pub proof fn lemma_dialog_item_is_hit(item: DialogItem, top: i16, left: i16, v: i16, h: i16)
    ensures
        crate::dialog::hits(item, top, left, v, h) <==> {
            &&& v >= top + item.rect.0
            &&& v < top + item.rect.2
            &&& h >= left + item.rect.1
            &&& h < left + item.rect.3
        },
{
}

} // verus!

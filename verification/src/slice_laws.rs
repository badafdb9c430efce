use vstd::prelude::*;

use crate::cpu::CpuExit;
use crate::launch::LaunchError;
use crate::menus::{menu_position, MenuView};
use crate::runner::{ActiveInterruptCallbackSource, RunnerView};
use crate::slice::{Flow, SliceOrder};
use crate::trap::DispView;

verus! {

/// Retrace tasks, and the cursor task too, wait while interrupts are masked: nothing counts
/// down, nothing is called, and nothing else changes.
pub proof fn lemma_masked_tasks_wait(s: RunnerView)
    requires
        s.cpu.sr / 256 % 8 != 0,
    ensures
        s.vbl_fired() == s,
        s.cursor_fired() == s,
{
    crate::interrupt_laws::lemma_level_one(s.cpu.sr);
    reveal(RunnerView::vbl_fired);
    reveal(RunnerView::cursor_fired);
}

/// A callback is over when the processor is back where it was interrupted and its stack is
/// as high as it was, and not before: neither alone is enough.
pub proof fn lemma_callback_is_over(s: RunnerView)
    requires
        s.cpu.dar.len() == 16,
    ensures
        s.active is None ==> !s.callback_over(),
        s.active matches Some(a) ==> {
            &&& s.cpu.pc != a.resume_pc ==> !s.callback_over()
            &&& s.cpu.dar[15] != a.resume_sp ==> !s.callback_over()
            &&& s.cpu.pc == a.resume_pc && s.cpu.dar[15] == a.resume_sp ==> s.callback_over()
        },
{
}

/// A callback just called is not over, unless it would begin where it is to return to.
pub proof fn lemma_callback_begins(s: RunnerView, source: ActiveInterruptCallbackSource, stub: u32)
    requires
        s.cpu.dar.len() == 16,
        stub != s.cpu.pc,
    ensures
        s.interrupted(source, stub).active is Some,
        s.interrupted(source, stub).active->0.resume_pc == s.cpu.pc,
        s.interrupted(source, stub).active->0.resume_sp == s.cpu.dar[15],
        !s.interrupted(source, stub).callback_over(),
{
    reveal(RunnerView::interrupted);
}

/// Instructions run in batches of at most 8192, and one at a time where the host looks at
/// each. A batch never goes beyond the end of the slice. While time is charged it ends
/// before the tick does, unless the tick has but one instruction left.
pub proof fn lemma_batches(s: RunnerView, o: SliceOrder, count: int, charging: bool)
    requires
        0 <= count < o.max_steps,
    ensures
        ({
            let n = s.batch_size(o, count, charging);
            let timed = charging && s.active is None;
            &&& 1 <= n <= o.max_steps - count
            &&& n <= 8192
            &&& o.single ==> n == 1
            &&& !o.single && !timed && o.max_steps - count >= 8192 ==> n == 8192
            &&& !o.single && !timed && o.max_steps - count < 8192 ==> n == o.max_steps - count
            &&& timed && s.tick_budget > 1 ==> n < s.tick_budget
            &&& timed && s.tick_budget <= 2 ==> n == 1
            &&& timed && !o.single && s.tick_budget > 2 && s.tick_budget - 1 <= 8192 && s.tick_budget - 1 <= o.max_steps
                - count ==> n == s.tick_budget - 1
        }),
{
}

/// Every instruction that ran is counted, a trap word as one more; when only sound work
/// runs it takes no time.
pub proof fn lemma_instructions_are_counted(s: RunnerView, o: SliceOrder, n: u32, exit: CpuExit, ahead: bool)
    requires
        s.active is Some || o.sound_work_only,
        s.total_instructions + n + 1 <= u64::MAX,
    ensures
        ({
            let t = s.accounted(o, n, exit, ahead).0;
            &&& exit is Aline || exit is Fline ==> t.total_instructions == s.total_instructions + n + 1
            &&& !(exit is Aline) && !(exit is Fline) ==> t.total_instructions == s.total_instructions + n
            &&& !s.accounted(o, n, exit, ahead).1
            &&& t.tick_budget == s.tick_budget
            &&& t.cpu == s.cpu
            &&& t.bus == s.bus
            &&& t.disp == s.disp
        }),
{
    reveal(RunnerView::accounted);
}

/// While time is charged, what ran comes off the tick's budget: all of it, or all but the
/// instruction that was charged ahead.
pub proof fn lemma_instructions_take_time(s: RunnerView, o: SliceOrder, n: u32, ahead: bool)
    requires
        s.active is None,
        !o.sound_work_only,
        1 <= s.instructions_per_tick <= 0x7FFF_FFFF,
        0 < n < 0x7FFF_0000,
        n < s.tick_budget,
    ensures
        ({
            let (t, over) = s.accounted(o, n, CpuExit::BudgetExhausted, ahead);
            &&& !over
            &&& t.tick_budget == s.tick_budget - n + if ahead {
                1int
            } else {
                0int
            }
            &&& t.bus == s.bus
            &&& t.disp == s.disp
        }),
{
    reveal(RunnerView::accounted);
}

/// Time is charged while the application itself runs and the clock is not held: not for
/// callbacks, not when only sound work runs.
pub proof fn lemma_time_is_charged(s: RunnerView, o: SliceOrder)
    ensures
        o.sound_work_only ==> !s.charging(o),
        s.active is Some ==> !s.charging(o),
        s.frozen_ticks is Some ==> !s.charging(o),
        !o.sound_work_only && s.active is None && s.frozen_ticks is None ==> s.charging(o),
        s.tick_budget > 1 || !s.charging(o) ==> s.precharged(o) == (s, false, false),
{
    reveal(RunnerView::precharged);
}

/// Code runs anywhere in RAM but in its lowest 96 bytes.
pub proof fn lemma_code_lies_in_ram(s: RunnerView, pc: u32)
    requires
        s.bus.mem.len() <= u32::MAX,
    ensures
        s.bad_pc(pc) <==> !(96 <= pc < s.bus.mem.len()),
{
}

/// An application that was asked for is launched at once, or, if it has to wait, as soon as
/// the running one asks for an event or ends.
pub proof fn lemma_launch_waits_for_yield(d: DispView, path: Seq<char>, waits: bool, yielded: bool, exited: bool)
    ensures
        ({
            let l = d.launching(path, waits);
            &&& l.launch_due(yielded, exited) is Some <==> !waits || yielded || exited
            &&& l.launch_due(yielded, exited) matches Some(p) ==> p == path
        }),
        d.pending_launch is None ==> d.launch_due(yielded, exited) is None,
{
}

/// A launch that fails halts the machine where it is, with the error for a file that was
/// not found; nothing is left to launch.
pub proof fn lemma_failed_launch_halts(s: RunnerView, path: Seq<char>)
    requires
        s.cpu.dar.len() == 16,
        s.disp.launch_due(true, false) == Some(path),
        s.disp.files.vfs.resource_key(crate::text::normal_path(path)) is None,
    ensures
        ({
            let (t, served) = s.launch_served(true, false);
            &&& served
            &&& t.halted
            &&& t.halted_pc == Some(s.cpu.pc)
            &&& t.halted_sp == Some(s.cpu.dar[15])
            &&& t.halted_d0 == Some(0xFFFF_FFD5u32)
            &&& t.disp.pending_launch is None
            &&& t.bus == s.bus
            &&& t.cpu == s.cpu
        }),
        s.switched(path) == Err::<RunnerView, LaunchError>(LaunchError::NoResourceFork),
{
}

/// The host's choice of an item counts when its menu, the first with that number, is
/// enabled and so is the item, counted from 1. It stands for a press of the button in the
/// menu bar, at the menu's left edge, ten lines down.
pub proof fn lemma_menu_item_is_chosen(d: DispView, id: i16, item: i16, i: int)
    requires
        0 <= i < d.shell.menus.len(),
        d.shell.menus[i].id == id,
        forall|j: int| 0 <= j < i ==> (#[trigger] d.shell.menus[j]).id != id,
    ensures
        ({
            let m = d.shell.menus[i];
            let there = m.enabled && 1 <= item <= m.items.len() && m.items[item - 1].enabled;
            &&& d.menu_choice(id, item) is Some <==> there
            &&& d.menu_choice(id, item) matches Some(e) ==> {
                &&& e.menu_id == id
                &&& e.item == item
                &&& e.v == 10
                &&& e.h == m.left
                &&& d.menu_press(e).what == 1
                &&& d.menu_press(e).where_v == 10
                &&& d.menu_press(e).where_h == m.left
            }
        }),
{
    lemma_menu_found(d.shell.menus, id, 0, i);
}

proof fn lemma_menu_found(menus: Seq<MenuView>, id: i16, from: int, i: int)
    requires
        0 <= from <= i < menus.len(),
        menus[i].id == id,
        forall|j: int| from <= j < i ==> (#[trigger] menus[j]).id != id,
    ensures
        menu_position(menus, id, from) == Some(i),
    decreases i - from,
{
    if from < i {
        assert(menus[from].id != id);
        lemma_menu_found(menus, id, from + 1, i);
    }
}

/// A menu that is not there offers no choice.
pub proof fn lemma_no_such_menu(d: DispView, id: i16, item: i16)
    requires
        forall|j: int| 0 <= j < d.shell.menus.len() ==> (#[trigger] d.shell.menus[j]).id != id,
    ensures
        d.menu_choice(id, item) is None,
{
    lemma_menu_missing(d.shell.menus, id, 0);
}

proof fn lemma_menu_missing(menus: Seq<MenuView>, id: i16, from: int)
    requires
        0 <= from <= menus.len(),
        forall|j: int| 0 <= j < menus.len() ==> (#[trigger] menus[j]).id != id,
    ensures
        menu_position(menus, id, from) is None,
    decreases menus.len() - from,
{
    if from < menus.len() {
        assert(menus[from].id != id);
        lemma_menu_missing(menus, id, from + 1);
    }
}

/// A slice is ordered as the host asks, but for two things: with a stopped clock it ends at
/// the tick where the clock stands, and it runs no more instructions than can be counted.
pub proof fn lemma_slice_order(s: RunnerView, max: usize, cap: Option<u32>, samples: usize, ui: bool, sound: bool, frame: bool)
    ensures
        ({
            let o = s.order(max, cap, samples, ui, sound, frame);
            &&& o.max_steps <= max
            &&& max <= 0xFFFF_FFF0 ==> o.max_steps == max
            &&& o.host_tick == cap
            &&& cap is None ==> o.tick_cap is None
            &&& cap is Some && s.frozen_ticks is None ==> o.tick_cap == cap
            &&& cap is Some && s.frozen_ticks is Some ==> o.tick_cap == s.frozen_ticks
            &&& o.audio_samples == samples
            &&& o.yield_for_ui == ui
            &&& o.sound_work_only == sound
            &&& o.finish_frame == frame
            &&& !o.single
        }),
{
}

/// A slice begins with nothing counted and the cap not reached, and leaves registers,
/// memory and clock as they are.
pub proof fn lemma_slice_begins(s: RunnerView)
    ensures
        s.slice().count == 0,
        !s.slice().capped,
        s.active is None ==> !s.slice().called,
        s.slice().m.cpu == s.cpu,
        s.slice().m.bus.mem == s.bus.mem,
        s.slice().m.tick_budget == s.tick_budget,
        s.slice().m.disp.instruction_count == s.total_instructions,
{
}

/// While a callback runs no other work is called and the slice goes on; when only sound
/// work is asked for and there is none, the slice is over.
pub proof fn lemma_work_of_a_turn(s: RunnerView, o: SliceOrder, called: bool)
    ensures
        s.active is Some && !o.sound_work_only ==> s.work_called(o, called) == (s, Flow::Run, called),
        s.active is None && o.sound_work_only && (called || !s.sound_work_pending()) ==> s.work_called(o, called) == (
            s,
            Flow::Leave,
            called,
        ),
{
    reveal(RunnerView::work_called);
    if s.active is Some {
        crate::laws::lemma_callbacks_do_not_nest(s, 0);
    }
}

/// A processor that has stopped, with nothing to wait for, halts the machine where it is.
pub proof fn lemma_stopped_processor_halts(s: RunnerView, o: SliceOrder)
    requires
        s.cpu.dar.len() == 16,
        s.disp.pending_wait_sleep_ticks == 0,
        s.disp.pending_delay_ticks == 0,
    ensures
        s.cpu.stopped == 0 ==> s.waits_served(o) == (s, Flow::Run),
        s.cpu.stopped != 0 ==> {
            let (t, flow) = s.waits_served(o);
            &&& flow is Halt
            &&& t.halted
            &&& t.halted_pc == Some(s.cpu.pc)
            &&& t.halted_sp == Some(s.cpu.dar[15])
            &&& t.halted_d0 == Some(s.cpu.dar[0])
            &&& t.bus == s.bus
        },
{
    reveal(RunnerView::waits_served);
}

/// Another application begins on the same machine: the speed, the settings for applications
/// and the host's sound go on, a full tick lies ahead, and nothing of the last application
/// is left to run.
pub proof fn lemma_next_application_takes_over(s: RunnerView, path: Seq<char>, t: RunnerView)
    requires
        s.switched(path) == Ok::<RunnerView, LaunchError>(t),
        1 <= s.instructions_per_tick <= 0x7FFF_FFFF,
    ensures
        t.disp.event_queue.len() == 0,
        t.disp.pending_launch is None,
        t.disp.vbl_tasks.len() == 0,
        t.disp.timer_tasks.len() == 0,
        t.disp.dialog is None,
        t.active is None,
        t.frozen_ticks is None,
        t.instructions_per_tick == s.instructions_per_tick,
        t.tick_budget == s.instructions_per_tick,
        t.host_clock == s.host_clock,
        t.app_start_time == s.app_start_time,
        t.application_partition_size == s.application_partition_size,
        t.audio_attached == s.audio_attached,
        t.host_audio == s.host_audio,
{
    reveal(RunnerView::blank);
    reveal(RunnerView::loaded);
    reveal(RunnerView::begun);
    reveal(RunnerView::initialized);
    reveal(DispView::started);
    reveal(DispView::file_opened);
    reveal(DispView::equipped);
}

} // verus!

use vstd::prelude::*;

use crate::cpu::{status, CpuView, STATUS_BITS};
use crate::disassembly::{disassembly, LARGEST_INSTRUCTION, LEAST_INSTRUCTION};
use crate::file_manager::FileView;
use crate::globals::{KEY_MAP_LM, MOUSE, M_TEMP, RAW_MOUSE, TICKS};
use crate::host::{rescaled, with_mouse};
use crate::listing::SummaryView;
use crate::loader::{less, AppView};
use crate::memory::{group_memory_lengths, lemma_long_of_set_byte_apart, lemma_long_of_set_long, lemma_long_of_set_long_apart, BusView};
use crate::resource::ResourceView;
use crate::resource_manager::{loaded_at, LoadedResource, ResourceTable};
use crate::run_loop::{turn_ran, turns, SliceView};
use crate::runner::{ActiveInterruptCallbackSource, RunnerView, APP_STACK_SAFETY_MARGIN, APP_ZONE_HEADER_SIZE};
use crate::slice::{Flow, SliceOrder, LOWEST_CODE};
use crate::standard_file::StandardFileError;
use crate::startup::heap_limit;
use crate::text::{file_name, in_mac_roman, lemma_normal_path_is_normal, lemma_normal_path_is_stable, normal_path, parent_path, separates, MAX_FILE_NAME};
use crate::ticks::lemma_ticked_keeps;
use crate::timers::{earliest_timer, lemma_earliest_timer_in_range, timer_ready};
use crate::trap::{with_key, DispView};
use crate::vfs::{names_file, SnapshotView, VfsView};

verus! {

broadcast use group_memory_lengths;

/// A file that was put onto the volume reads back: its forks, its type, its
/// creator and its flags, and its dates where they were given. Reading it changes
/// nothing.
pub proof fn lemma_imported_file_reads_back(v: VfsView, file: SnapshotView)
    requires
        names_file(normal_path(file.path)),
    ensures
        ({
            let s = v.with_file(file);
            let (t, found) = s.read_file(file.path);
            &&& t == s
            &&& found matches Some(f)
            &&& f.path == normal_path(file.path)
            &&& f.data_fork == file.data_fork
            &&& f.resource_fork == file.resource_fork
            &&& f.file_type == file.file_type
            &&& f.creator == file.creator
            &&& f.finder_flags == file.finder_flags
            &&& file.created_date != 0 ==> f.created_date == file.created_date
            &&& file.modified_date != 0 ==> f.modified_date == file.modified_date
        }),
{
    let p = normal_path(file.path);
    let a = VfsView {
        data: v.data.insert(p, file.data_fork),
        resources: v.resources.insert(p, file.resource_fork),
        ..v
    };
    a.lemma_with_metadata_keeps(p);
}

/// Putting a file onto the volume leaves the forks of the others.
pub proof fn lemma_import_leaves_other_files(v: VfsView, file: SnapshotView, path: Seq<char>)
    requires
        normal_path(path) != normal_path(file.path),
    ensures
        ({
            let p = normal_path(path);
            let s = v.with_file(file);
            &&& s.is_file(p) == v.is_file(p)
            &&& s.data_of(p) == v.data_of(p)
            &&& s.resource_of(p) == v.resource_of(p)
            &&& v.metadata.dom().contains(p) ==> s.metadata.dom().contains(p) && s.metadata[p] == v.metadata[p]
        }),
{
    let q = normal_path(file.path);
    let p = normal_path(path);
    let a = VfsView {
        data: v.data.insert(q, file.data_fork),
        resources: v.resources.insert(q, file.resource_fork),
        ..v
    };
    a.lemma_with_metadata_keeps(q);
    if v.metadata.dom().contains(p) {
        assert(a.metadata.dom().contains(p));
        assert(a.with_metadata(q).metadata[p] == a.metadata[p]);
    }
}

/// A file that was removed cannot be read.
pub proof fn lemma_removed_file_is_gone(v: VfsView, path: Seq<char>)
    ensures
        v.without_file(path).read_file(path).1 is None,
        !v.without_file(path).is_file(normal_path(path)),
{
}

/// Removing a file leaves the others.
pub proof fn lemma_removal_leaves_other_files(v: VfsView, path: Seq<char>, other: Seq<char>)
    requires
        normal_path(path) != normal_path(other),
    ensures
        ({
            let p = normal_path(other);
            let s = v.without_file(path);
            &&& s.is_file(p) == v.is_file(p)
            &&& s.data_of(p) == v.data_of(p)
            &&& s.resource_of(p) == v.resource_of(p)
            &&& s.metadata.dom().contains(p) == v.metadata.dom().contains(p)
            &&& s.metadata.dom().contains(p) ==> s.metadata[p] == v.metadata[p]
        }),
{
}

/// A file that was put onto the volume is listed.
pub proof fn lemma_imported_file_is_listed(v: VfsView, file: SnapshotView)
    requires
        names_file(normal_path(file.path)),
    ensures
        v.with_file(file).listed(normal_path(file.path)),
{
    let p = normal_path(file.path);
    let a = VfsView {
        data: v.data.insert(p, file.data_fork),
        resources: v.resources.insert(p, file.resource_fork),
        ..v
    };
    a.lemma_with_metadata_keeps(p);
    lemma_normal_path_is_normal(file.path);
    lemma_normal_path_is_stable(p);
    assert(v.with_file(file).is_file(p));
}

/// The list of files without their content and the list with hashes tell the same
/// of the same files, and leave the same behind.
pub proof fn lemma_stats_agree_with_summaries(v: VfsView, list: Seq<Seq<char>>, picks: Seq<bool>, n: nat)
    ensures
        v.stats_of(list, picks, n).0 == v.summaries_of(list, picks, n).0,
        v.stats_of(list, picks, n).1 == v.summaries_of(list, picks, n).1.map_values(|s: SummaryView| s.stat),
    decreases n,
{
    if n > 0 {
        lemma_stats_agree_with_summaries(v, list, picks, (n - 1) as nat);
    }
}

/// Merging resources leaves those that are there: each in its place, and each
/// search finds what it found before.
pub proof fn lemma_merge_keeps_loaded(
    t: ResourceTable,
    b: BusView,
    rs: Seq<ResourceView>,
    n: nat,
    res_type: u32,
    id: i16,
)
    ensures
        t.loaded.is_prefix_of(t.merged(b, rs, n).0.loaded),
        loaded_at(t.loaded, res_type, id, 0) is Some ==> loaded_at(t.merged(b, rs, n).0.loaded, res_type, id, 0)
            == loaded_at(t.loaded, res_type, id, 0),
    decreases n,
{
    if n > 0 {
        lemma_merge_keeps_loaded(t, b, rs, (n - 1) as nat, res_type, id);
    }
    lemma_found_in_longer(t.loaded, t.merged(b, rs, n).0.loaded, res_type, id, 0);
}

proof fn lemma_found_in_longer(a: Seq<LoadedResource>, b: Seq<LoadedResource>, res_type: u32, id: i16, from: int)
    requires
        a.is_prefix_of(b),
        from >= 0,
    ensures
        loaded_at(a, res_type, id, from) is Some ==> loaded_at(b, res_type, id, from) == loaded_at(
            a,
            res_type,
            id,
            from,
        ),
    decreases a.len() - from,
{
    if from < a.len() {
        assert(a[from] == b[from]);
        lemma_found_in_longer(a, b, res_type, id, from + 1);
    }
}

/// Merging resources that are all there adds none.
pub proof fn lemma_merge_of_present_adds_none(t: ResourceTable, b: BusView, rs: Seq<ResourceView>, n: nat)
    requires
        n <= rs.len(),
        forall|k: int|
            0 <= k < n ==> loaded_at(t.loaded, (#[trigger] rs[k]).res_type, rs[k].id, 0) is Some,
    ensures
        t.merged(b, rs, n) == (t, b, 0nat),
    decreases n,
{
    if n > 0 {
        lemma_merge_of_present_adds_none(t, b, rs, (n - 1) as nat);
    }
}

/// What the user has chosen in a dialog to open a file is what the guest finds at
/// the path that the dialog ends with.
pub proof fn lemma_opened_file_reads_back(files: FileView, file: SnapshotView, path: Seq<char>)
    requires
        files.opened(file).1 == Ok::<Seq<char>, StandardFileError>(path),
        names_file(normal_path(path)),
    ensures
        files.opened(file).0.vfs.read_file(path).1 matches Some(f) && f.data_fork == file.data_fork && f.resource_fork
            == file.resource_fork && f.file_type == file.file_type && f.creator == file.creator,
{
    lemma_imported_file_reads_back(files.vfs, SnapshotView { path, ..file });
}

/// A file name has no separator, only characters of the Macintosh character set,
/// and is not too long.
pub proof fn lemma_file_name_is_safe(s: Seq<char>, i: int)
    requires
        0 <= i < file_name(s).len(),
    ensures
        file_name(s).len() <= MAX_FILE_NAME,
        !separates(file_name(s)[i]),
        in_mac_roman(file_name(s)[i]),
{
}

/// A callback that has returned leaves the registers as it found them, and the
/// application goes on where it was interrupted; `t` is any state in which the
/// callback that interrupted `s` is over.
pub proof fn lemma_callback_restores(s: RunnerView, t: RunnerView, source: ActiveInterruptCallbackSource, stub: u32)
    requires
        s.cpu.dar.len() == 16,
        t.active == s.interrupted(source, stub).active,
        t.callback_over(),
    ensures
        ({
            let u = t.callback_ended();
            &&& u.cpu.dar == s.cpu.dar
            &&& u.cpu.pc == s.cpu.pc
            &&& u.cpu.sr == status(s.cpu.sr, t.cpu.core.flags[STATUS_BITS as int])
            &&& u.active is None
        }),
{
    reveal(RunnerView::interrupted);
    assert(s.cpu.dar.subrange(0, 8) + s.cpu.dar.subrange(8, 16) =~= s.cpu.dar);
}

/// While a callback runs, no other one is called.
pub proof fn lemma_callbacks_do_not_nest(s: RunnerView, now: u64)
    requires
        s.active is Some,
    ensures
        s.file_completed() == (s, false),
        s.sound_called() == (s, false),
        s.timer_fired(now) == s,
        s.cursor_fired() == s,
        s.vbl_fired() == s,
        s.modeless_drawn() == (s, false),
        s.drawn() == (s, false),
{
    reveal(RunnerView::file_completed);
    reveal(RunnerView::sound_fired);
    reveal(RunnerView::doubleback_fired);
    reveal(RunnerView::timer_fired);
    reveal(RunnerView::cursor_fired);
    reveal(RunnerView::vbl_fired);
    reveal(RunnerView::modeless_drawn);
}

/// Releasing a key undoes pressing it: the key map is as it was while the key was up.
pub proof fn lemma_key_release_undoes_press(d: DispView, key: u8, pressed: u8, released: u8)
    requires
        d.key_map.len() == 16,
        d.key_map[(key % 128 / 8) as int] & (1u8 << (key % 128 % 8)) == 0,
    ensures
        with_key(with_key(d, key, pressed, true), key, released, false).key_map == d.key_map,
{
    let i = (key % 128 / 8) as int;
    let x = d.key_map[i];
    let n = key % 128 % 8;
    assert(x & (1u8 << n) == 0 ==> (x | (1u8 << n)) & !(1u8 << n) == x) by (bit_vector);
    assert(with_key(with_key(d, key, pressed, true), key, released, false).key_map =~= d.key_map);
}

/// While the application does not sleep, guest memory shows the keys that are down as
/// soon as one is pressed or released.
pub proof fn lemma_key_map_is_mirrored(s: RunnerView, key: u8, char_code: u8, down: bool, i: int)
    requires
        s.disp.pending_wait_next_event_return is None,
        s.disp.key_map.len() == 16,
        KEY_MAP_LM + 16 <= s.bus.mem.len(),
        0 <= i < 16,
    ensures
        ({
            let t = s.key_pressed(key, char_code, down);
            t.bus.get_byte((KEY_MAP_LM + i) as u32) == t.disp.key_map[i]
        }),
{
    reveal(RunnerView::key_pressed);
    reveal(RunnerView::input_offered);
    reveal(crate::memory::set_bytes);
}

/// Wherever the guest looks for the mouse, it finds it where the host has put it.
pub proof fn lemma_mouse_is_mirrored(b: BusView, v: i16, h: i16)
    requires
        MOUSE + 4 <= b.mem.len(),
        b.mem.len() <= 0x1_0000_0000,
    ensures
        with_mouse(b, v, h).get_word(M_TEMP) == v as u16,
        with_mouse(b, v, h).get_word((M_TEMP + 2) as u32) == h as u16,
        with_mouse(b, v, h).get_word(RAW_MOUSE) == v as u16,
        with_mouse(b, v, h).get_word((RAW_MOUSE + 2) as u32) == h as u16,
        with_mouse(b, v, h).get_word(MOUSE) == v as u16,
        with_mouse(b, v, h).get_word((MOUSE + 2) as u32) == h as u16,
{
    reveal(with_mouse);
    broadcast use crate::memory::group_memory_reads;

}

/// A change of the rate neither ends a tick early nor makes it longer than a tick
/// is: what was left of it stays within a tick, and what was used up stays used up.
pub proof fn lemma_rate_change_keeps_tick(left: i32, old_rate: u32, new_rate: u32)
    requires
        1 <= old_rate <= 0x7fff_ffff,
        1 <= new_rate <= 0x7fff_ffff,
        left <= old_rate,
        -old_rate <= left,
    ensures
        left >= 0 ==> 0 <= rescaled(left, old_rate, new_rate) <= new_rate,
        left <= 0 ==> -new_rate <= rescaled(left, old_rate, new_rate) <= 0,
        left == old_rate ==> rescaled(left, old_rate, new_rate) == new_rate,
{
    let size: int = if left >= 0 { left as int } else { -left };
    let n: int = new_rate as int;
    let o: int = old_rate as int;
    assert(0 <= size * n / o <= n && (size == 0 ==> size * n / o == 0) && (size == o ==> size * n / o == n)) by (nonlinear_arith)
        requires
            0 <= size <= o,
            1 <= o,
            1 <= n,
    ;
}

/// When the clock goes on, guest memory and the Toolbox show the same tick.
pub proof fn lemma_clock_agrees(s: RunnerView)
    requires
        crate::runner::LOW_MEMORY_SIZE <= s.bus.mem.len(),
        s.sane(),
    ensures
        s.clocked().tick() == s.tick().wrapping_add(1),
        s.clocked().disp.tick_count == s.clocked().tick(),
{
    reveal(crate::ticks::with_clock);
    let tick = s.tick().wrapping_add(1);
    let m = s.unwatched().bus.mem;
    let a = crate::memory::set_long(m, TICKS, tick);
    lemma_long_of_set_long(m, TICKS, tick);
    let pressed = s.disp.mouse_button || s.disp.unmatched_mouse_down();
    let b = crate::memory::set_byte(
        a,
        crate::globals::MB_STATE,
        if pressed {
            0x00
        } else {
            0x80
        },
    );
    lemma_long_of_set_byte_apart(
        a,
        crate::globals::MB_STATE,
        if pressed {
            0x00
        } else {
            0x80
        },
        TICKS,
    );
    let time = crate::memory::long_at(b, crate::globals::TIME).wrapping_add(1);
    lemma_long_of_set_long_apart(b, crate::globals::TIME, time, TICKS);
}

/// A tick sets the Toolbox's clock to one more than the guest's.
pub proof fn lemma_tick_count_after_tick(s: RunnerView)
    ensures
        s.ticked().disp.tick_count == s.tick().wrapping_add(1),
{
    reveal(RunnerView::ticked);
    reveal(RunnerView::cursor_fired);
    reveal(RunnerView::vbl_fired);
    reveal(RunnerView::timer_fired);
    reveal(RunnerView::interrupted);
}

proof fn lemma_budget_ticks_below_cap(s: RunnerView, cap: u32)
    requires
        1 <= s.instructions_per_tick <= 0x7fff_ffff,
        s.disp.tick_count <= cap,
    ensures
        s.budget_ticks(Some(cap)).0.disp.tick_count <= cap,
    decreases (if s.tick_budget <= 0 { 1 - s.tick_budget } else { 0 }),
{
    lemma_ticked_keeps(s);
    lemma_tick_count_after_tick(s);
    if s.tick_budget > 0 || s.frozen_ticks is Some || s.reached(Some(cap)) {
    } else {
        let t = RunnerView { tick_budget: (s.tick_budget + s.instructions_per_tick) as i32, ..s.ticked() };
        if t.active is None && !t.reached(Some(cap)) {
            lemma_budget_ticks_below_cap(t, cap);
        }
    }
}

/// Instructions never take the clock beyond the tick cap.
pub proof fn lemma_charge_stops_at_cap(s: RunnerView, units: i32, cap: u32)
    requires
        1 <= s.instructions_per_tick <= 0x7fff_ffff,
        s.disp.tick_count <= cap,
    ensures
        s.charged(units, Some(cap)).0.disp.tick_count <= cap,
        s.charged(units, Some(cap)).1 ==> s.charged(units, Some(cap)).0.reached(Some(cap)),
{
    if units > 0 && s.active is None {
        let a = RunnerView { tick_budget: crate::ticks::lowered(s.tick_budget, units), ..s };
        lemma_budget_ticks_below_cap(a, cap);
        lemma_budget_ticks_end(a, cap);
    }
}

proof fn lemma_budget_ticks_end(s: RunnerView, cap: u32)
    requires
        1 <= s.instructions_per_tick <= 0x7fff_ffff,
    ensures
        s.budget_ticks(Some(cap)).1 ==> s.budget_ticks(Some(cap)).0.reached(Some(cap)),
    decreases (if s.tick_budget <= 0 { 1 - s.tick_budget } else { 0 }),
{
    lemma_ticked_keeps(s);
    if s.tick_budget > 0 || s.frozen_ticks is Some || s.reached(Some(cap)) {
    } else {
        let t = RunnerView { tick_budget: (s.tick_budget + s.instructions_per_tick) as i32, ..s.ticked() };
        if t.active is None && !t.reached(Some(cap)) {
            lemma_budget_ticks_end(t, cap);
        }
    }
}

/// A sleep never takes the clock beyond the tick cap.
pub proof fn lemma_sleep_stops_at_cap(s: RunnerView, cap: u32)
    requires
        s.disp.tick_count <= cap,
    ensures
        s.slept(Some(cap)).disp.tick_count <= cap,
    decreases s.disp.pending_wait_sleep_ticks,
{
    if s.disp.pending_wait_sleep_ticks == 0 || s.reached(Some(cap)) {
    } else {
        let spent = RunnerView {
            disp: DispView { pending_wait_sleep_ticks: (s.disp.pending_wait_sleep_ticks - 1) as u32, ..s.disp },
            ..s
        };
        lemma_ticked_keeps(spent);
        lemma_tick_count_after_tick(spent);
        let t = spent.ticked().refilled();
        if t.active is None {
            lemma_sleep_stops_at_cap(t, cap);
        }
    }
}

/// A delay never takes the clock beyond the tick cap.
pub proof fn lemma_delay_stops_at_cap(s: RunnerView, cap: u32)
    requires
        s.disp.tick_count <= cap,
    ensures
        s.delayed(Some(cap)).0.disp.tick_count <= cap,
    decreases s.disp.pending_delay_ticks,
{
    if s.disp.pending_delay_ticks == 0 || s.reached(Some(cap)) {
    } else {
        let spent = RunnerView {
            disp: DispView { pending_delay_ticks: (s.disp.pending_delay_ticks - 1) as u32, ..s.disp },
            ..s
        };
        lemma_ticked_keeps(spent);
        lemma_tick_count_after_tick(spent);
        let t = spent.ticked().refilled();
        if t.active is None {
            lemma_delay_stops_at_cap(t, cap);
        }
    }
}

/// Skipping a wait loop never takes the clock beyond the tick cap.
pub proof fn lemma_skip_stops_at_cap(s: RunnerView, n: nat, cap: u32)
    requires
        s.disp.tick_count <= cap,
    ensures
        s.ticked_until(n, Some(cap)).0.disp.tick_count <= cap,
    decreases n,
{
    if n > 0 && !s.reached(Some(cap)) {
        lemma_ticked_keeps(s);
        lemma_tick_count_after_tick(s);
        if s.ticked().active is None {
            lemma_skip_stops_at_cap(s.ticked(), (n - 1) as nat, cap);
        }
    }
}

/// A loop is parked only when a whole turn of it has changed neither a register
/// nor a byte of memory within one tick.
pub proof fn lemma_parked_loop_is_idle(
    s: RunnerView,
    t: RunnerView,
    trap_pc: u32,
    wake_tick: u32,
    cap: u32,
    now: CpuView,
)
    requires
        s.passes_idle(t, trap_pc, wake_tick, cap, now, true),
    ensures
        s.idle_cycle_probe matches Some(probe) && probe.trap_pc == trap_pc && probe.tick == s.disp.tick_count
            && probe.cpu == now && s.bus.probe == Some(s.bus.mem),
        t.idle_cycle_sleep matches Some(sleep) && sleep.trap_pc == trap_pc && sleep.wake_tick == wake_tick,
{
}

/// A parked loop sleeps on only when nothing has changed that it could notice:
/// memory, the registers, the clock, the mouse and the keys, and no event waits.
pub proof fn lemma_disturbed_loop_wakes(
    s: RunnerView,
    t: RunnerView,
    cap: Option<u32>,
    now: CpuView,
)
    requires
        s.resumes_idle(t, cap, now, true),
    ensures
        s.idle_cycle_sleep matches Some(sleep) && s.undisturbed(sleep, now),
        cap is Some,
{
}

/// The heap limit leaves the zone's header below it, and the stack its room above
/// it where RAM is large enough for both.
pub proof fn lemma_heap_limit_in_range(app: AppView, heap: u32, requested: Option<u32>)
    requires
        app.zone_start() + APP_ZONE_HEADER_SIZE <= u32::MAX,
    ensures
        heap_limit(app, heap, requested) >= app.zone_start() + APP_ZONE_HEADER_SIZE,
        less(app.initial_sp, APP_STACK_SAFETY_MARGIN) >= app.zone_start() + APP_ZONE_HEADER_SIZE ==> heap_limit(
            app,
            heap,
            requested,
        ) <= less(app.initial_sp, APP_STACK_SAFETY_MARGIN),
{
}

/// At most one timer task fires at a time: the others stay as they are, so one that
/// was due with it is still due.
pub proof fn lemma_other_timers_wait(s: RunnerView, now: u64, i: int)
    requires
        0 <= i < s.disp.timer_tasks.len(),
        earliest_timer(s.disp.timer_tasks, now, s.disp.timer_tasks.len()) != Some(i),
    ensures
        s.timer_fired(now).disp.timer_tasks.len() == s.disp.timer_tasks.len(),
        s.timer_fired(now).disp.timer_tasks[i] == s.disp.timer_tasks[i],
{
    reveal(RunnerView::timer_fired);
    reveal(RunnerView::interrupted);
    lemma_earliest_timer_in_range(s.disp.timer_tasks, now, s.disp.timer_tasks.len());
}

/// A timer task that has fired does not fire again until it is primed.
pub proof fn lemma_fired_timer_rests(s: RunnerView, now: u64, later: u64, i: int)
    requires
        s.active is None,
        earliest_timer(s.disp.timer_tasks, now, s.disp.timer_tasks.len()) == Some(i),
    ensures
        !timer_ready(s.timer_fired(now).disp.timer_tasks[i], later),
{
    reveal(RunnerView::timer_fired);
    reveal(RunnerView::interrupted);
    lemma_earliest_timer_in_range(s.disp.timer_tasks, now, s.disp.timer_tasks.len());
}

/// No instruction runs outside RAM or in the processor's vectors, address 0 included:
/// the machine halts there.
pub proof fn lemma_no_instruction_outside_ram(s: SliceView, t: SliceView, o: SliceOrder, pc: u32, flow: Flow)
    requires
        turn_ran(s, t, o, pc, flow),
        pc < LOWEST_CODE || pc >= s.m.bus.ram_size(),
    ensures
        flow is Halt,
        t.count == s.count,
        t.m.halted,
        t.m.halted_pc == Some(pc),
        t.m.bus == s.m.bus,
        t.m.cpu == s.m.cpu,
{
    reveal(turn_ran);
}

/// A machine that is halted runs no instruction.
pub proof fn lemma_halted_machine_stays(s: RunnerView, o: SliceOrder, t: RunnerView, r: (usize, bool))
    requires
        s.halted,
        s.slice_may_end(o, t, r),
    ensures
        r == (0usize, false),
        t == RunnerView::left(s.slice(), o),
{
    let path = choose|path: Seq<SliceView>| #[trigger]
        turns(path, s.slice(), o) && RunnerView::slice_ends(path, o, t, r);
    if path.len() > 1 {
        assert(path[0].goes_on(o));
    }
    assert(path.last() == s.slice());
}

/// A slice without instructions runs none.
pub proof fn lemma_empty_slice(s: RunnerView, o: SliceOrder, t: RunnerView, r: (usize, bool))
    requires
        o.max_steps == 0,
        s.slice_may_end(o, t, r),
    ensures
        r == (0usize, !s.halted),
        t == RunnerView::left(s.slice(), o),
{
    let path = choose|path: Seq<SliceView>| #[trigger]
        turns(path, s.slice(), o) && RunnerView::slice_ends(path, o, t, r);
    if path.len() > 1 {
        assert(path[0].goes_on(o));
    }
    assert(path.last() == s.slice());
}

/// An application that was launched finds the forks of all files as they were, and
/// the clock and the mouse go on.
pub proof fn lemma_launch_keeps_files(s: RunnerView, path: Seq<char>, t: RunnerView)
    requires
        s.switched(path) == Ok::<RunnerView, crate::launch::LaunchError>(t),
    ensures
        t.disp.files.vfs.data == s.disp.files.vfs.data,
        t.disp.files.vfs.resources == s.disp.files.vfs.resources,
        t.disp.tick_count == s.tick(),
        t.disp.mouse_pos == s.disp.mouse_pos,
        t.disp.mouse_button == s.disp.mouse_button,
        t.disp.launched_app_path == Some(normal_path(path)),
        t.total_instructions == s.total_instructions,
        t.config == s.config,
        t.audio_buffer == s.audio_buffer,
        !t.halted,
{
    reveal(RunnerView::blank);
    reveal(RunnerView::loaded);
    reveal(RunnerView::begun);
    reveal(RunnerView::initialized);
    reveal(DispView::started);
    reveal(DispView::equipped);
    reveal(DispView::file_opened);
    lemma_normal_path_is_normal(path);
    lemma_normal_path_is_stable(normal_path(path));
    let q = normal_path(path);
    s.disp.files.vfs.lemma_with_dir_keeps(parent_path(q));
    let moved = s.disp.files.vfs.with_dir(parent_path(q)).0;
    moved.lemma_with_metadata_keeps(q);
}

/// Every instruction of a disassembly has a size within its bounds, and the next
/// one stands behind it.
pub proof fn lemma_disassembly_advances(b: BusView, pc: u32, n: nat, i: int)
    requires
        0 <= i < n,
    ensures
        disassembly(b, pc, n).0.len() == n,
        ({
            let line = disassembly(b, pc, n).0[i];
            &&& LEAST_INSTRUCTION <= line.2 <= LARGEST_INSTRUCTION
            &&& i == 0 ==> line.0 == pc
            &&& i + 1 < n ==> disassembly(b, pc, n).0[i + 1].0 == line.0.wrapping_add(line.2)
        }),
    decreases n,
{
    lemma_disassembly_length(b, pc, n);
    lemma_disassembly_length(b, pc, (n - 1) as nat);
    if i + 1 < n {
        lemma_disassembly_advances(b, pc, (n - 1) as nat, i);
        if i + 2 == n {
            lemma_disassembly_end(b, pc, (n - 1) as nat);
        }
    }
}

proof fn lemma_disassembly_length(b: BusView, pc: u32, n: nat)
    ensures
        disassembly(b, pc, n).0.len() == n,
        n == 0 ==> disassembly(b, pc, n).1 == pc,
    decreases n,
{
    if n > 0 {
        lemma_disassembly_length(b, pc, (n - 1) as nat);
    }
}

proof fn lemma_disassembly_end(b: BusView, pc: u32, n: nat)
    requires
        n > 0,
    ensures
        ({
            let (lines, at) = disassembly(b, pc, n);
            lines.len() == n && at == lines[n - 1].0.wrapping_add(lines[n - 1].2)
        }),
{
    lemma_disassembly_length(b, pc, n);
    lemma_disassembly_length(b, pc, (n - 1) as nat);
}

} // verus!

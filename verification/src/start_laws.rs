use vstd::prelude::*;
use vstd::utf8::encode_utf8;

use crate::cpu::{status, STATUS_BITS};
use crate::loader::{heap_start, less, more, AppView};
use crate::memory::{group_memory_bytes, group_memory_lengths, group_memory_reads, BusView};
use crate::resource_manager::handle_made;
use crate::runner::RunnerView;
use crate::screen::{device_made, device_written, screen_base, Screen, SCREEN_BYTES};
use crate::startup::{
    file_block_written, globals_started, identified, vectors_installed, volume_written, with_plain_vector, with_pstring,
    with_stack_vector, zone_made, zone_opened, zone_plan, zone_prepared,
};
use crate::trap::DispView;

verus! {

broadcast use group_memory_lengths;

/// There is room to start the application: low memory, the application's image, its heap
/// zone, the heap with 4 kilobytes to spare, and the stack's first 32 kilobytes lie in RAM
/// and apart from low memory.
pub open spec fn room_to_start(s: RunnerView, app: AppView) -> bool {
    &&& s.disp.key_map.len() == 16
    &&& s.cpu.dar.len() == 16
    &&& 0x0010_0000 <= s.bus.mem.len() <= u32::MAX - 1024
    &&& 0x1000 <= s.bus.heap
    &&& s.bus.heap + 0x1000 <= s.bus.mem.len()
    &&& more(heap_start(app.loaded_image_end), 64) <= s.bus.heap
    &&& 0x1000 <= app.zone_start()
    &&& app.zone_start() + 64 <= s.bus.mem.len()
    &&& 0x9000 <= app.initial_sp <= s.bus.mem.len()
}

/// The byte at `a` is written when the application's file is opened, its device is made or
/// its jump vectors are installed.
spec fn set_later(a: u32) -> bool {
    ||| 0x900 <= a < 0x902
    ||| 0x34E <= a < 0x360
    ||| 0x3F6 <= a < 0x3F8
    ||| 0xAEC <= a < 0xAF0
    ||| 0x100 <= a < 0x102
    ||| 0x8A4 <= a < 0x8AC
    ||| 0xCC8 <= a < 0xCCC
    ||| 0x266 <= a < 0x26A
    ||| 0x574 <= a < 0x578
    ||| 0x800 <= a < 0x80C
    ||| 0x8E0 <= a < 0x8E4
}

/// The byte at `a` is kept, and the heap gives away at most `n` bytes.
spec fn quiet(b: BusView, c: BusView, a: u32, n: int) -> bool {
    &&& b.heap <= c.heap <= b.heap + n
    &&& c.mem.len() == b.mem.len()
    &&& c.get_byte(a) == b.get_byte(a)
}

proof fn lemma_pstring_quiet(b: BusView, ptr: u32, bytes: Seq<u8>, max: nat, a: u32)
    requires
        max <= 255,
        ptr + 1 + max <= u32::MAX,
        a < ptr || a > ptr + max,
    ensures
        quiet(b, with_pstring(b, ptr, bytes, max), a, 0),
{
    broadcast use group_memory_bytes;

}

proof fn lemma_volume_quiet(b: BusView, vcb: u32, dir_id: u32, a: u32)
    requires
        a < 0x1000 <= vcb,
        vcb + 256 <= u32::MAX,
        !set_later(a),
    ensures
        quiet(b, volume_written(b, vcb, dir_id), a, 0),
{
    broadcast use group_memory_bytes;

    reveal(volume_written);
    let c = b.filled(vcb, crate::startup::HFS_VCB_SIZE, 0).word(vcb.wrapping_add(8), 0x4244);
    lemma_pstring_quiet(c, vcb.wrapping_add(44), encode_utf8(crate::startup::boot_volume_name()), 27, a);
}

proof fn lemma_file_block_quiet(b: BusView, fcbs: u32, vcb: u32, m: crate::vfs::VfsMetadata, len: u32, name: Seq<char>, a: u32)
    requires
        a < 0x1000 <= fcbs,
        fcbs + 256 <= u32::MAX,
        !set_later(a),
    ensures
        quiet(b, file_block_written(b, fcbs, vcb, m, len, name), a, 0),
{
    broadcast use group_memory_bytes;

    reveal(file_block_written);
    let fcb = fcbs.wrapping_add(crate::startup::APPLICATION_RESOURCE_REFNUM as u32);
    let c = b.filled(fcbs, crate::startup::HFS_FCB_BUFFER_SIZE as u32, 0).word(
        fcbs,
        crate::startup::HFS_FCB_BUFFER_SIZE,
    ).long(fcb, m.file_id).word(fcb.wrapping_add(4), 0x0200).long(fcb.wrapping_add(8), len).long(
        fcb.wrapping_add(12),
        len,
    ).long(fcb.wrapping_add(20), vcb).long(fcb.wrapping_add(50), m.file_type).long(
        fcb.wrapping_add(58),
        m.parent_dir_id,
    );
    assert(quiet(b, c, a, 0));
    lemma_pstring_quiet(c, fcb.wrapping_add(62), encode_utf8(name), 31, a);
}

proof fn lemma_file_opened_quiet(d: DispView, b: BusView, a: u32)
    requires
        a < 0x1000 <= b.heap,
        b.heap + 0x800 <= b.mem.len() <= u32::MAX - 1024,
        !set_later(a),
    ensures
        quiet(b, d.file_opened(b).1, a, 0x200),
        d.file_opened(b).0.screen == d.screen,
{
    reveal(DispView::file_opened);
    if let Some(path) = d.launched_app_path {
        let vfs = d.files.vfs.with_metadata(path);
        let (vcb, b1) = b.allocated(crate::startup::HFS_VCB_SIZE);
        lemma_volume_quiet(b1, vcb, d.files.default_dir_id, a);
        let b2 = volume_written(b1, vcb, d.files.default_dir_id);
        assert(b2.heap == b1.heap) by {
            reveal(volume_written);
        }
        let (fcbs, b3) = b2.allocated(crate::startup::HFS_FCB_BUFFER_SIZE as u32);
        lemma_file_block_quiet(
            b3,
            fcbs,
            vcb,
            vfs.metadata[path],
            vfs.resource_of(path).len() as u32,
            crate::text::base_name(path),
            a,
        );
    }
}

proof fn lemma_device_quiet(b: BusView, gdevice: u32, a: u32)
    requires
        a < 0x1000 <= b.heap,
        b.heap + 0x400 <= b.mem.len() <= u32::MAX - 1024,
        0x0010_0000 <= b.mem.len(),
        !set_later(a),
    ensures
        quiet(b, device_made(b, gdevice).1, a, 0x100),
{
    broadcast use group_memory_bytes;

    reveal(device_made);
    if gdevice == 0 {
        let base = screen_base(b.ram_size());
        let (gd, b1) = b.allocated(crate::screen::GDEVICE_SIZE);
        let (gdh, b2) = b1.allocated(4);
        let (pm, b3) = b2.allocated(crate::screen::PIXMAP_SIZE);
        let (pmh, b4) = b3.allocated(4);
        assert(quiet(b, b4, a, 0x100));
        assert(gd == b.heap && gdh == b1.heap && pm == b2.heap && pmh == b3.heap);
        let c = device_written(b4, gd, gdh, pm, pmh, base);
        assert(quiet(b4, c, a, 0));
    }
}

proof fn lemma_equipped_quiet(d: DispView, b: BusView, a: u32)
    requires
        a < 0x1000 <= b.heap,
        b.heap + 0x500 <= b.mem.len() <= u32::MAX - 1024,
        0x0010_0000 <= b.mem.len(),
        !set_later(a),
    ensures
        quiet(b, d.equipped(b).1, a, 0x200),
{
    broadcast use group_memory_bytes;

    reveal(DispView::equipped);
    reveal(handle_made);
    let bytes = seq![0u8, 0u8, 0u8, 0u8];
    let (resources, b1, handle) = d.resources.with_system_handle(b, bytes);
    assert(quiet(b, b1, a, 8));
    let b2 = b1.long(crate::globals::APP_PARM_HANDLE, handle).word(crate::startup::EXIT_STUB, 0xA9F4);
    assert(quiet(b1, b2, a, 0));
    lemma_device_quiet(b2, d.screen.gdevice, a);
    reveal(Screen::made);
}

proof fn lemma_vectors_quiet(b: BusView, a: u32)
    requires
        a < 0x1000 <= b.heap,
        b.heap + 0x100 <= b.mem.len() <= u32::MAX - 1024,
        !set_later(a),
    ensures
        quiet(b, vectors_installed(b), a, 0x28),
{
    broadcast use group_memory_bytes;

    reveal(vectors_installed);
    let b1 = with_plain_vector(b, crate::globals::SWAP_MMU_MODE_TRAP, 0xA05D);
    assert(quiet(b, b1, a, 4));
    let b2 = with_stack_vector(b1, crate::globals::J_HIDE_CURSOR, 0xA852);
    assert(quiet(b1, b2, a, 8));
    let b3 = with_plain_vector(b2, crate::globals::J_SHOW_CURSOR, 0xA853);
    assert(quiet(b2, b3, a, 4));
    let b4 = with_stack_vector(b3, crate::globals::J_SHIELD_CURSOR, 0xA855);
    assert(quiet(b3, b4, a, 8));
}

/// What starting an application does, one after the other.
struct Start {
    globals: BusView,
    opened: BusView,
    named: BusView,
    zone: BusView,
    filed: DispView,
    file: BusView,
    device: BusView,
}

#[verifier::opaque]
spec fn start(s: RunnerView, app: AppView) -> Start {
    let globals = globals_started(s.bus, app, s.launch_time(), s.disp.key_map);
    let p = zone_plan(app, globals.heap, s.application_partition_size);
    let opened = zone_opened(globals, p);
    let named = identified(opened, s.disp.launched_app_path, s.disp.files.default_dir_id);
    let zone = zone_made(named, app.initial_sp, p);
    let (filed, file) = s.disp.file_opened(zone);
    Start { globals, opened, named, zone, filed, file, device: filed.equipped(file).1 }
}

proof fn lemma_start(s: RunnerView, app: AppView)
    requires
        room_to_start(s, app),
    ensures
        ({
            let g = start(s, app);
            let p = zone_plan(app, s.bus.heap, s.application_partition_size);
            &&& g.globals == globals_started(s.bus, app, s.launch_time(), s.disp.key_map)
            &&& g.opened == zone_opened(g.globals, p)
            &&& g.named == identified(g.opened, s.disp.launched_app_path, s.disp.files.default_dir_id)
            &&& g.zone == zone_made(g.named, app.initial_sp, p)
            &&& (g.filed, g.file) == s.disp.file_opened(g.zone)
            &&& g.device == g.filed.equipped(g.file).1
            &&& s.initialized(app).bus == vectors_installed(g.device).long(app.initial_sp.wrapping_sub(4), 0x100)
            &&& s.initialized(app).disp == g.filed.equipped(g.file).0
            &&& g.zone.heap == s.bus.heap
            &&& g.globals.mem.len() == s.bus.mem.len()
            &&& g.opened.mem.len() == s.bus.mem.len()
            &&& g.named.mem.len() == s.bus.mem.len()
            &&& g.zone.mem.len() == s.bus.mem.len()
            &&& g.file.mem.len() == s.bus.mem.len()
            &&& g.device.mem.len() == s.bus.mem.len()
            &&& s.bus.heap <= g.file.heap <= s.bus.heap + 0x200
            &&& s.bus.heap <= g.device.heap <= s.bus.heap + 0x400
        }),
{
    reveal(start);
    reveal(RunnerView::initialized);
    reveal(DispView::started);
    reveal(globals_started);
    reveal(zone_prepared);
    reveal(zone_opened);
    reveal(identified);
    reveal(zone_made);
    let g = start(s, app);
    lemma_file_opened_quiet(s.disp, g.zone, 0);
    lemma_equipped_quiet(g.filed, g.file, 0);
}

/// Bytes of low memory that nothing sets behind the heap zone are as the heap zone's
/// preparation left them.
proof fn lemma_kept_since_zone(s: RunnerView, app: AppView)
    requires
        room_to_start(s, app),
    ensures
        forall|a: u32|
            a < 0x1000 && !set_later(a) ==> #[trigger] s.initialized(app).bus.get_byte(a) == start(s, app).zone.get_byte(a),
        s.initialized(app).bus.mem.len() == s.bus.mem.len(),
{
    lemma_start(s, app);
    let g = start(s, app);
    let e = s.initialized(app).bus;
    assert forall|a: u32| a < 0x1000 && !set_later(a) implies #[trigger] e.get_byte(a) == g.zone.get_byte(a) by {
        broadcast use group_memory_bytes;

        lemma_file_opened_quiet(s.disp, g.zone, a);
        lemma_equipped_quiet(g.filed, g.file, a);
        lemma_vectors_quiet(g.device, a);
    }
    lemma_vectors_quiet(g.device, 0);
}

/// A byte of low memory that naming the application or making its zone does not set.
proof fn lemma_zone_low(s: RunnerView, app: AppView, a: u32)
    requires
        room_to_start(s, app),
        a < 0x1000,
        a < 0x900 || a >= 0x930,
        a < 0x398 || a >= 0x39C,
        a < 0x214 || a >= 0x216,
    ensures
        start(s, app).zone.get_byte(a) == start(s, app).opened.get_byte(a),
{
    broadcast use group_memory_bytes;

    lemma_start(s, app);
    let g = start(s, app);
    assert(g.named.get_byte(a) == g.opened.get_byte(a)) by {
        reveal(identified);
        if let Some(path) = s.disp.launched_app_path {
            lemma_pstring_quiet(
                g.opened.word(crate::globals::CUR_APREF_NUM, 0),
                crate::globals::CUR_APNAME,
                encode_utf8(crate::text::base_name(path)),
                31,
                a,
            );
        }
    }
    reveal(zone_made);
}

/// The long at `a` of low memory is as the opening of the heap zone left it.
proof fn lemma_long_since_zone(s: RunnerView, app: AppView, a: u32)
    requires
        room_to_start(s, app),
        a + 4 <= 0x1000,
        forall|x: u32|
            a <= x < a + 4 ==> !#[trigger] set_later(x) && (x < 0x900 || x >= 0x930) && (x < 0x398 || x >= 0x39C) && (x < 0x214
                || x >= 0x216),
    ensures
        s.initialized(app).bus.get_long(a) == start(s, app).opened.get_long(a),
{
    lemma_kept_since_zone(s, app);
    let e = s.initialized(app).bus;
    let g = start(s, app);
    assert forall|x: u32| a <= x < a + 4 implies #[trigger] e.get_byte(x) == g.opened.get_byte(x) by {
        assert(!set_later(x));
        assert(e.get_byte(x) == g.zone.get_byte(x));
        lemma_zone_low(s, app, x);
    }
    assert(e.get_byte(a) == g.opened.get_byte(a));
    assert(e.get_byte((a + 1) as u32) == g.opened.get_byte((a + 1) as u32));
    assert(e.get_byte((a + 2) as u32) == g.opened.get_byte((a + 2) as u32));
    assert(e.get_byte((a + 3) as u32) == g.opened.get_byte((a + 3) as u32));
    crate::interrupt_laws::lemma_same_long(e, g.opened, a);
}

/// An application begins with A5 where it was loaded to, the stack pointer four bytes
/// below its first stack address, A6 there too, and the program counter behind the first
/// word of its first jump table entry. No other register changes, but for the status
/// register: supervisor mode, and no interrupt masked.
pub proof fn lemma_registers_at_start(s: RunnerView, app: AppView)
    requires
        s.cpu.dar.len() == 16,
        s.cpu.core.flags[17] == 0xF71F,
        app.initial_sp >= 4,
    ensures
        ({
            let t = s.initialized(app);
            &&& t.cpu.dar.len() == 16
            &&& t.cpu.dar[13] == app.a5_base
            &&& t.cpu.dar[14] == app.initial_sp - 4
            &&& t.cpu.dar[15] == app.initial_sp - 4
            &&& t.cpu.pc == app.a5_base.wrapping_add(app.code0_header.jump_table_offset).wrapping_add(2)
            &&& forall|i: int| 0 <= i < 13 ==> #[trigger] t.cpu.dar[i] == s.cpu.dar[i]
            &&& t.cpu.sr / 256 % 8 == 0
            &&& t.cpu.sr / 0x2000 % 2 == 1
            &&& t.cpu.sr % 32 == s.cpu.sr % 32
            &&& t.halted == s.halted
            &&& t.active == s.active
            &&& t.tick_budget == s.tick_budget
        }),
{
    reveal(RunnerView::initialized);
    let sr = s.cpu.sr;
    let mask = s.cpu.core.flags[STATUS_BITS as int];
    assert(mask == 0xF71F ==> ({
        let w = (sr & 0xF8FFu16) | 0x2000u16;
        let r = w & (mask as u16) & 0xF71Fu16;
        let q = if r & 0x2000u16 == 0 { r & 0xEFFFu16 } else { r };
        q / 256 % 8 == 0 && q / 0x2000 % 2 == 1 && q % 32 == sr % 32
    })) by (bit_vector);
}

/// An application that begins finds in low memory: A5, the same as in the register; the
/// start of its globals; the end of RAM; 600 ticks; the time, and the same as seed of its
/// random numbers; a double click within 20 ticks; a cursor task that only returns; a menu
/// bar of 20 lines; the mouse button up; addresses of 32 bits; and the keys that are down.
pub proof fn lemma_globals_at_start(s: RunnerView, app: AppView)
    requires
        room_to_start(s, app),
    ensures
        ({
            let b = s.initialized(app).bus;
            let t = s.initialized(app);
            &&& b.get_long(0x904) == app.a5_base
            &&& b.get_long(0x904) == t.cpu.dar[13]
            &&& b.get_long(0x908) == if app.code0_header.below_a5 <= app.a5_base {
                (app.a5_base - app.code0_header.below_a5) as u32
            } else {
                0u32
            }
            &&& b.get_long(0x108) == s.bus.mem.len()
            &&& b.get_long(0x16A) == 600
            &&& t.disp.tick_count == 600
            &&& b.get_long(0x20C) == if s.app_start_time is Some { s.app_start_time->0 } else { s.host_clock }
            &&& b.get_long(0x156) == b.get_long(0x20C)
            &&& b.get_long(0x2F0) == 20
            &&& b.get_long(0x8EE) == 0x60
            &&& b.get_byte(0x172) == 0x80
            &&& b.get_byte(0xCB2) == 1
            &&& b.get_byte(0x260) == 1
            &&& b.get_word(0x60) == 0x4E75
            &&& b.get_word(0x28E) == 0
            &&& b.get_word(0xBAA) == 20
            &&& forall|i: int| 0 <= i < 16 ==> b.get_byte((0x174 + i) as u32) == #[trigger] s.disp.key_map[i]
        }),
{
    lemma_start(s, app);
    let g = start(s, app);
    let e = s.initialized(app).bus;
    lemma_started_globals(s.bus, app, s.launch_time(), s.disp.key_map);
    lemma_opened_spares(s, app);
    lemma_kept_since_zone(s, app);
    lemma_long_since_globals(s, app, 0x108);
    lemma_long_since_globals(s, app, 0x16A);
    lemma_long_since_globals(s, app, 0x20C);
    lemma_long_since_globals(s, app, 0x156);
    lemma_long_since_globals(s, app, 0x2F0);
    lemma_long_since_globals(s, app, 0x8EE);
    lemma_byte_since_globals(s, app, 0x172);
    lemma_byte_since_globals(s, app, 0xCB2);
    lemma_byte_since_globals(s, app, 0x260);
    lemma_word_since_globals(s, app, 0x60);
    lemma_word_since_globals(s, app, 0x28E);
    lemma_word_since_globals(s, app, 0xBAA);
    assert forall|i: int| 0 <= i < 16 implies e.get_byte((0x174 + i) as u32) == #[trigger] s.disp.key_map[i] by {
        lemma_byte_since_globals(s, app, (0x174 + i) as u32);
    }
    lemma_name_area(s, app);
    assert(s.initialized(app).cpu.dar[13] == app.a5_base) by {
        reveal(RunnerView::initialized);
    }
    assert(s.initialized(app).disp.tick_count == 600) by {
        reveal(DispView::equipped);
    }
    assert(s.bus.ram_size() == s.bus.mem.len());
}

/// A5 and the stack's base are not touched by the application's name.
proof fn lemma_name_area(s: RunnerView, app: AppView)
    requires
        room_to_start(s, app),
    ensures
        s.initialized(app).bus.get_long(0x904) == start(s, app).globals.get_long(0x904),
        s.initialized(app).bus.get_long(0x908) == start(s, app).globals.get_long(0x908),
{
    lemma_start(s, app);
    lemma_kept_since_zone(s, app);
    lemma_opened_spares(s, app);
    let g = start(s, app);
    let e = s.initialized(app).bus;
    assert forall|a: u32| 0x904 <= a < 0x90C implies #[trigger] e.get_byte(a) == g.globals.get_byte(a) by {
        broadcast use group_memory_bytes;

        assert(e.get_byte(a) == g.zone.get_byte(a));
        assert(g.zone.get_byte(a) == g.named.get_byte(a)) by {
            reveal(zone_made);
        }
        assert(g.named.get_byte(a) == g.opened.get_byte(a)) by {
            reveal(identified);
            if let Some(path) = s.disp.launched_app_path {
                lemma_pstring_quiet(
                    g.opened.word(crate::globals::CUR_APREF_NUM, 0),
                    crate::globals::CUR_APNAME,
                    encode_utf8(crate::text::base_name(path)),
                    31,
                    a,
                );
            }
        }
        assert(g.opened.get_byte(a) == g.globals.get_byte(a));
    }
    assert(e.get_byte(0x904) == g.globals.get_byte(0x904) && e.get_byte(0x905) == g.globals.get_byte(0x905));
    assert(e.get_byte(0x906) == g.globals.get_byte(0x906) && e.get_byte(0x907) == g.globals.get_byte(0x907));
    assert(e.get_byte(0x908) == g.globals.get_byte(0x908) && e.get_byte(0x909) == g.globals.get_byte(0x909));
    assert(e.get_byte(0x90A) == g.globals.get_byte(0x90A) && e.get_byte(0x90B) == g.globals.get_byte(0x90B));
    crate::interrupt_laws::lemma_same_long(e, g.globals, 0x904);
    crate::interrupt_laws::lemma_same_long(e, g.globals, 0x908);
}

/// The byte at `a` is not one of the heap zone's globals.
spec fn not_of_zone(a: u32) -> bool {
    &&& a < 0x10C || a >= 0x11C
    &&& a < 0x130 || a >= 0x134
    &&& a < 0x2A6 || a >= 0x2AE
}

proof fn lemma_opened_spares(s: RunnerView, app: AppView)
    requires
        room_to_start(s, app),
    ensures
        forall|a: u32| a < 0x1000 && not_of_zone(a) ==> #[trigger] start(s, app).opened.get_byte(a) == start(s, app).globals.get_byte(a),
{
    lemma_start(s, app);
    let g = start(s, app);
    assert forall|a: u32| a < 0x1000 && not_of_zone(a) implies #[trigger] g.opened.get_byte(a) == g.globals.get_byte(a) by {
        broadcast use group_memory_bytes;

        reveal(zone_opened);
    }
}

proof fn lemma_byte_since_globals(s: RunnerView, app: AppView, a: u32)
    requires
        room_to_start(s, app),
        a < 0x1000,
        !set_later(a),
        not_of_zone(a),
        a < 0x900 || a >= 0x930,
        a < 0x398 || a >= 0x39C,
        a < 0x214 || a >= 0x216,
    ensures
        s.initialized(app).bus.get_byte(a) == start(s, app).globals.get_byte(a),
{
    lemma_kept_since_zone(s, app);
    lemma_zone_low(s, app, a);
    lemma_opened_spares(s, app);
    let g = start(s, app);
    assert(s.initialized(app).bus.get_byte(a) == g.zone.get_byte(a));
    assert(g.opened.get_byte(a) == g.globals.get_byte(a));
}

proof fn lemma_word_since_globals(s: RunnerView, app: AppView, a: u32)
    requires
        room_to_start(s, app),
        a == 0x60 || a == 0x28E || a == 0xBAA,
    ensures
        s.initialized(app).bus.get_word(a) == start(s, app).globals.get_word(a),
{
    lemma_byte_since_globals(s, app, a);
    lemma_byte_since_globals(s, app, (a + 1) as u32);
    crate::interrupt_laws::lemma_same_word(s.initialized(app).bus, start(s, app).globals, a);
}

proof fn lemma_long_since_globals(s: RunnerView, app: AppView, a: u32)
    requires
        room_to_start(s, app),
        a + 4 <= 0x1000,
        forall|x: u32| a <= x < a + 4 ==> !#[trigger] set_later(x) && not_of_zone(x),
        a + 4 <= 0x900 || a >= 0x930,
        a + 4 <= 0x398 || a >= 0x39C,
        a + 4 <= 0x214 || a >= 0x216,
    ensures
        s.initialized(app).bus.get_long(a) == start(s, app).globals.get_long(a),
{
    assert(!set_later(a) && !set_later((a + 1) as u32) && !set_later((a + 2) as u32) && !set_later((a + 3) as u32));
    lemma_byte_since_globals(s, app, a);
    lemma_byte_since_globals(s, app, (a + 1) as u32);
    lemma_byte_since_globals(s, app, (a + 2) as u32);
    lemma_byte_since_globals(s, app, (a + 3) as u32);
    crate::interrupt_laws::lemma_same_long(s.initialized(app).bus, start(s, app).globals, a);
}

proof fn lemma_started_globals(b: BusView, app: AppView, time: u32, keys: Seq<u8>)
    requires
        0x1000 <= b.mem.len() <= u32::MAX,
        keys.len() == 16,
    ensures
        ({
            let c = globals_started(b, app, time, keys);
            &&& c.get_long(0x904) == app.a5_base
            &&& c.get_long(0x908) == app.image_start()
            &&& c.get_long(0x108) == b.ram_size()
            &&& c.get_long(0x16A) == 600
            &&& c.get_long(0x20C) == time
            &&& c.get_long(0x156) == time
            &&& c.get_long(0x2F0) == 20
            &&& c.get_long(0x8EE) == 0x60
            &&& c.get_byte(0x172) == 0x80
            &&& c.get_byte(0xCB2) == 1
            &&& c.get_byte(0x260) == 1
            &&& c.get_word(0x60) == 0x4E75
            &&& c.get_word(0x28E) == 0
            &&& c.get_word(0xBAA) == 20
            &&& forall|i: int| 0 <= i < 16 ==> c.get_byte((0x174 + i) as u32) == #[trigger] keys[i]
        }),
{
    reveal(globals_started);
    let b1 = b.long(0x108, b.ram_size()).long(0x908, app.image_start()).long(0x904, app.a5_base).word(0x28E, 0).byte(
        0xCB2,
        1,
    );
    let b2 = b1.long(0x16A, 600).long(0x20C, time).long(0x2F0, 20).long(0x156, time);
    let b3 = b2.byte(0x172, 0x80);
    let b4 = b3.bytes(0x174, keys);
    let c = b4.word(0x60, 0x4E75).long(0x8EE, 0x60).word(0xBAA, 20).byte(0x260, 1);
    assert(c == globals_started(b, app, time, keys));
    assert(b2.get_long(0x904) == app.a5_base && b2.get_long(0x908) == app.image_start() && b2.get_long(0x108)
        == b.ram_size() && b2.get_long(0x16A) == 600 && b2.get_long(0x20C) == time && b2.get_long(0x156) == time
        && b2.get_long(0x2F0) == 20) by {
        broadcast use group_memory_reads;

    }
    assert forall|a: u32| (a < 0x60 || a >= 0x62) && (a < 0x172 || a >= 0x184) && (a < 0x8EE || a >= 0x8F2) && (a < 0xBAA || a
        >= 0xBAC) && a != 0x260 implies #[trigger] c.get_byte(a) == b2.get_byte(a) by {
        broadcast use group_memory_bytes;

    }
    lemma_long_through(b2, c, 0x904);
    lemma_long_through(b2, c, 0x908);
    lemma_long_through(b2, c, 0x108);
    lemma_long_through(b2, c, 0x16A);
    lemma_long_through(b2, c, 0x20C);
    lemma_long_through(b2, c, 0x156);
    lemma_long_through(b2, c, 0x2F0);
    assert(c.get_long(0x8EE) == 0x60 && c.get_word(0x60) == 0x4E75 && c.get_word(0xBAA) == 20) by {
        broadcast use group_memory_reads;

        assert(c.get_word(0xBAA) == 20) by {
            let d = b4.word(0x60, 0x4E75).long(0x8EE, 0x60).word(0xBAA, 20);
            lemma_word_past_byte(d, 0x260, 1, 0xBAA);
        }
        lemma_word_past_byte(b4.word(0x60, 0x4E75).long(0x8EE, 0x60).word(0xBAA, 20), 0x260, 1, 0x60);
    }
    assert(c.get_word(0x28E) == 0) by {
        assert(c.get_byte(0x28E) == b2.get_byte(0x28E) && c.get_byte(0x28F) == b2.get_byte(0x28F));
        crate::interrupt_laws::lemma_same_word(c, b2, 0x28E);
        broadcast use group_memory_reads;

        let d = b.long(0x108, b.ram_size()).long(0x908, app.image_start()).long(0x904, app.a5_base).word(0x28E, 0);
        lemma_word_past_byte(d, 0xCB2, 1, 0x28E);
    }
    assert(c.get_byte(0xCB2) == b2.get_byte(0xCB2));
    assert(b2.get_byte(0xCB2) == 1) by {
        broadcast use group_memory_bytes;

    }
    assert(c.get_byte(0x172) == 0x80) by {
        broadcast use group_memory_bytes;

        assert(b3.get_byte(0x172) == 0x80);
    }
    assert forall|i: int| 0 <= i < 16 implies c.get_byte((0x174 + i) as u32) == #[trigger] keys[i] by {
        broadcast use group_memory_bytes;

        reveal(crate::memory::set_bytes);
        assert(b4.get_byte((0x174 + i) as u32) == keys[i]);
    }
}

proof fn lemma_word_past_byte(b: BusView, at: u32, v: u8, a: u32)
    requires
        at < a || at >= a + 2,
        a + 2 <= u32::MAX,
    ensures
        b.byte(at, v).get_word(a) == b.get_word(a),
{
    broadcast use group_memory_bytes;

    crate::interrupt_laws::lemma_same_word(b.byte(at, v), b, a);
}

proof fn lemma_long_through(b: BusView, c: BusView, a: u32)
    requires
        a + 4 <= 0x1000,
        a + 4 <= 0x172 || a >= 0x184,
        a >= 0x62,
        a + 4 <= 0x260 || a > 0x260,
        a + 4 <= 0x8EE || a >= 0x8F2,
        a + 4 <= 0xBAA || a >= 0xBAC,
        forall|x: u32|
            (x < 0x60 || x >= 0x62) && (x < 0x172 || x >= 0x184) && (x < 0x8EE || x >= 0x8F2) && (x < 0xBAA || x >= 0xBAC) && x
                != 0x260 ==> #[trigger] c.get_byte(x) == b.get_byte(x),
    ensures
        c.get_long(a) == b.get_long(a),
{
    assert(c.get_byte(a) == b.get_byte(a));
    assert(c.get_byte((a + 1) as u32) == b.get_byte((a + 1) as u32));
    assert(c.get_byte((a + 2) as u32) == b.get_byte((a + 2) as u32));
    assert(c.get_byte((a + 3) as u32) == b.get_byte((a + 3) as u32));
    crate::interrupt_laws::lemma_same_long(c, b, a);
}

/// The heap zone that an application finds begins at one place for low memory, the zone's
/// header and the heap: behind the header, up to the limit. The header says where the zone
/// ends, where its first block is and how much is free.
pub proof fn lemma_zone_at_start(s: RunnerView, app: AppView)
    requires
        room_to_start(s, app),
        app.zone_start() + 64 <= s.bus.heap,
        app.zone_start() + 64 <= app.initial_sp - 0x8000,
        app.zone_start() + 64 <= s.bus.mem.len() - 0x0008_0000,
    ensures
        ({
            let b = s.initialized(app).bus;
            let start = b.get_long(0x2AA);
            let limit = b.get_long(0x130);
            &&& start == app.zone_start()
            &&& b.get_long(0x2A6) == start
            &&& b.get_long(0x118) == start
            &&& b.get_long(0x114) == start + 64
            &&& b.get_long(0x10C) == limit
            &&& b.get_long(start) == limit
            &&& b.get_long((start + 8) as u32) == start + 64
            &&& b.get_long((start + 56) as u32) == start + 64
            &&& limit >= start + 64 ==> b.get_long((start + 12) as u32) == limit - start - 64
            &&& limit == crate::startup::heap_limit(app, s.bus.heap, s.application_partition_size)
        }),
{
    lemma_start(s, app);
    let g = start(s, app);
    let p = zone_plan(app, s.bus.heap, s.application_partition_size);
    assert(g.opened.get_long(0x2A6) == p.start && g.opened.get_long(0x2AA) == p.start && g.opened.get_long(0x114) == p.start
        + 64 && g.opened.get_long(0x130) == p.limit && g.opened.get_long(0x10C) == p.limit && g.opened.get_long(0x118)
        == p.start) by {
        broadcast use group_memory_reads;

        reveal(zone_opened);
    }
    lemma_long_since_zone(s, app, 0x2A6);
    lemma_long_since_zone(s, app, 0x2AA);
    lemma_long_since_zone(s, app, 0x114);
    lemma_long_since_zone(s, app, 0x130);
    lemma_long_since_zone(s, app, 0x10C);
    lemma_long_since_zone(s, app, 0x118);
    assert(g.zone.get_long(p.start) == p.limit && g.zone.get_long((p.start + 8) as u32) == p.start + 64 && g.zone.get_long(
        (p.start + 56) as u32,
    ) == p.start + 64 && g.zone.get_long((p.start + 12) as u32) == less(less(p.limit, p.start), 64)) by {
        broadcast use group_memory_reads;

        reveal(zone_made);
    }
    lemma_header_kept(s, app, p.start);
    lemma_header_kept(s, app, (p.start + 8) as u32);
    lemma_header_kept(s, app, (p.start + 12) as u32);
    lemma_header_kept(s, app, (p.start + 56) as u32);
}

/// A long behind low memory that the heap has handed out, as the zone's preparation left
/// it.
proof fn lemma_header_kept(s: RunnerView, app: AppView, a: u32)
    requires
        room_to_start(s, app),
        0x1000 <= a,
        a + 4 <= s.bus.heap,
        a + 4 <= app.initial_sp - 4,
        a + 4 <= s.bus.mem.len() - 0x0008_0000,
    ensures
        s.initialized(app).bus.get_long(a) == start(s, app).zone.get_long(a),
{
    lemma_header_byte(s, app, a);
    lemma_header_byte(s, app, (a + 1) as u32);
    lemma_header_byte(s, app, (a + 2) as u32);
    lemma_header_byte(s, app, (a + 3) as u32);
    crate::interrupt_laws::lemma_same_long(s.initialized(app).bus, start(s, app).zone, a);
}

proof fn lemma_header_byte(s: RunnerView, app: AppView, a: u32)
    requires
        room_to_start(s, app),
        0x1000 <= a < s.bus.heap,
        a < app.initial_sp - 4,
        a < s.bus.mem.len() - 0x0008_0000,
    ensures
        s.initialized(app).bus.get_byte(a) == start(s, app).zone.get_byte(a),
{
    broadcast use group_memory_bytes;

    lemma_start(s, app);
    let g = start(s, app);
    assert(g.file.get_byte(a) == g.zone.get_byte(a)) by {
        reveal(DispView::file_opened);
        if let Some(path) = s.disp.launched_app_path {
            let vfs = s.disp.files.vfs.with_metadata(path);
            let (vcb, b1) = g.zone.allocated(crate::startup::HFS_VCB_SIZE);
            assert(vcb == g.zone.heap);
            let b2 = volume_written(b1, vcb, s.disp.files.default_dir_id);
            assert(b2.get_byte(a) == g.zone.get_byte(a)) by {
                reveal(volume_written);
                let c = b1.filled(vcb, crate::startup::HFS_VCB_SIZE, 0).word(vcb.wrapping_add(8), 0x4244);
                lemma_pstring_quiet(c, vcb.wrapping_add(44), encode_utf8(crate::startup::boot_volume_name()), 27, a);
            }
            assert(b2.heap == b1.heap && b2.mem.len() == b1.mem.len()) by {
                reveal(volume_written);
            }
            let (fcbs, b3) = b2.allocated(crate::startup::HFS_FCB_BUFFER_SIZE as u32);
            assert(fcbs == b2.heap);
            lemma_block_above(
                b3,
                fcbs,
                vcb,
                vfs.metadata[path],
                vfs.resource_of(path).len() as u32,
                crate::text::base_name(path),
                a,
            );
        }
    }
    assert(g.device.get_byte(a) == g.file.get_byte(a)) by {
        lemma_equipped_above(g.filed, g.file, a);
    }
    assert(vectors_installed(g.device).get_byte(a) == g.device.get_byte(a)) by {
        reveal(vectors_installed);
        let b1 = with_plain_vector(g.device, crate::globals::SWAP_MMU_MODE_TRAP, 0xA05D);
        assert(b1.get_byte(a) == g.device.get_byte(a));
        let b2 = with_stack_vector(b1, crate::globals::J_HIDE_CURSOR, 0xA852);
        assert(b2.get_byte(a) == b1.get_byte(a));
        let b3 = with_plain_vector(b2, crate::globals::J_SHOW_CURSOR, 0xA853);
        assert(b3.get_byte(a) == b2.get_byte(a));
        let b4 = with_stack_vector(b3, crate::globals::J_SHIELD_CURSOR, 0xA855);
        assert(b4.get_byte(a) == b3.get_byte(a));
    }
}

proof fn lemma_block_above(b: BusView, fcbs: u32, vcb: u32, m: crate::vfs::VfsMetadata, len: u32, name: Seq<char>, a: u32)
    requires
        0x1000 <= a < fcbs,
        fcbs + 256 <= u32::MAX,
    ensures
        file_block_written(b, fcbs, vcb, m, len, name).get_byte(a) == b.get_byte(a),
{
    broadcast use group_memory_bytes;

    reveal(file_block_written);
    let fcb = fcbs.wrapping_add(crate::startup::APPLICATION_RESOURCE_REFNUM as u32);
    let c = b.filled(fcbs, crate::startup::HFS_FCB_BUFFER_SIZE as u32, 0).word(
        fcbs,
        crate::startup::HFS_FCB_BUFFER_SIZE,
    ).long(fcb, m.file_id).word(fcb.wrapping_add(4), 0x0200).long(fcb.wrapping_add(8), len).long(
        fcb.wrapping_add(12),
        len,
    ).long(fcb.wrapping_add(20), vcb).long(fcb.wrapping_add(50), m.file_type).long(
        fcb.wrapping_add(58),
        m.parent_dir_id,
    );
    assert(c.get_byte(a) == b.get_byte(a));
    lemma_pstring_quiet(c, fcb.wrapping_add(62), encode_utf8(name), 31, a);
}

proof fn lemma_equipped_above(d: DispView, b: BusView, a: u32)
    requires
        0x1000 <= a < b.heap,
        a < b.mem.len() - 0x0008_0000,
        b.heap + 0x500 <= b.mem.len() <= u32::MAX - 1024,
        0x0010_0000 <= b.mem.len(),
    ensures
        d.equipped(b).1.get_byte(a) == b.get_byte(a),
{
    broadcast use group_memory_bytes;

    reveal(DispView::equipped);
    reveal(handle_made);
    let bytes = seq![0u8, 0u8, 0u8, 0u8];
    let (resources, b1, handle) = d.resources.with_system_handle(b, bytes);
    assert(b1.get_byte(a) == b.get_byte(a));
    let b2 = b1.long(crate::globals::APP_PARM_HANDLE, handle).word(crate::startup::EXIT_STUB, 0xA9F4);
    reveal(Screen::made);
    reveal(device_made);
    if d.screen.gdevice == 0 {
        let base = screen_base(b2.ram_size());
        let (gd, c1) = b2.allocated(crate::screen::GDEVICE_SIZE);
        let (gdh, c2) = c1.allocated(4);
        let (pm, c3) = c2.allocated(crate::screen::PIXMAP_SIZE);
        let (pmh, c4) = c3.allocated(4);
        assert(gd == b2.heap && gdh == c1.heap && pm == c2.heap && pmh == c3.heap);
        let e = device_written(c4, gd, gdh, pm, pmh, base);
        assert(e.get_byte(a) == c4.get_byte(a));
    }
}

/// The heap may grow up to the application's partition, less the stack's margin, where a
/// partition size was set or, if none was, where the application prefers one; but not
/// below what is in use. A partition that has no room leaves the heap all that lies below
/// the stack's margin.
pub proof fn lemma_partition_limits_heap(app: AppView, heap: u32, requested: Option<u32>, size: u32)
    requires
        size >= 0x2000,
        match requested {
            Some(n) => n == size,
            None => app.size_resource matches Some(r) && r.preferred_size == size,
        },
        app.zone_start() + size <= u32::MAX,
        app.zone_start() + 64 <= u32::MAX,
        heap_start(app.loaded_image_end) <= heap,
        app.initial_sp >= 0x2000,
    ensures
        ({
            let end = app.zone_start() + size - 0x2000;
            let used = if heap > end { heap as int } else { end };
            let most = app.initial_sp - 0x2000;
            let limit = crate::startup::heap_limit(app, heap, requested);
            &&& app.zone_start() + 64 < used < most ==> limit == used
            &&& used >= most && most >= app.zone_start() + 64 ==> limit == most
        }),
{
}

/// Without a partition size the heap may grow up to the stack's margin.
pub proof fn lemma_heap_without_partition(app: AppView, heap: u32)
    requires
        app.size_resource is None,
        app.zone_start() + 64 <= app.initial_sp - 0x2000,
    ensures
        crate::startup::heap_limit(app, heap, None) == app.initial_sp - 0x2000,
{
}

/// The heap zone's header meets the application's image nowhere: the zone begins at 2
/// megabytes where the image is behind its header, else at the end of the image, and the
/// heap begins behind the image in any case.
pub proof fn lemma_zone_is_apart_from_image(app: AppView)
    requires
        app.loaded_image_end <= 0xFFFF_FF00,
        app.code0_header.below_a5 <= app.a5_base,
    ensures
        ({
            let image = app.a5_base - app.code0_header.below_a5;
            &&& app.zone_start() + 64 <= image || app.zone_start() >= app.loaded_image_end
            &&& app.zone_start() >= 0x0020_0000
            &&& image >= 0x0020_0040 ==> app.zone_start() == 0x0020_0000
            &&& image < 0x0020_0040 ==> app.zone_start() == heap_start(app.loaded_image_end)
            &&& heap_start(app.loaded_image_end) >= app.loaded_image_end
            &&& heap_start(app.loaded_image_end) >= 0x0020_0000
            &&& app.loaded_image_end >= 0x0020_0000 ==> heap_start(app.loaded_image_end) < app.loaded_image_end + 4
            &&& heap_start(app.loaded_image_end) % 4 == 0
        }),
{
}

/// When the application's main program returns, it comes to an `_ExitToShell`: the return
/// address is on top of the stack. The 32 kilobytes below it are not zero.
pub proof fn lemma_stack_at_start(s: RunnerView, app: AppView, a: u32)
    requires
        room_to_start(s, app),
        s.bus.heap + 0x1000 <= app.initial_sp - 0x8000,
        app.initial_sp <= s.bus.mem.len() - 16,
        app.zone_start() + 64 <= app.initial_sp - 0x8000,
        app.initial_sp - 0x8000 <= a < app.initial_sp - 4,
        ({
            let sound = s.bus.mem.len() - 0x0008_0000 + 480_000;
            a < sound || a >= sound + 740
        }),
        ({
            let sound = s.bus.mem.len() - 0x0008_0000 + 480_000;
            s.bus.heap + 0x1000 <= sound
        }),
    ensures
        ({
            let b = s.initialized(app).bus;
            &&& b.get_long((app.initial_sp - 4) as u32) == 0x100
            &&& b.get_word(0x100) == 0xA9F4
            &&& b.get_byte(a) == 0xA5
        }),
{
    lemma_start(s, app);
    let g = start(s, app);
    let v = vectors_installed(g.device);
    lemma_vectors_quiet(g.device, 0);
    assert(s.initialized(app).bus.get_long((app.initial_sp - 4) as u32) == 0x100) by {
        broadcast use group_memory_reads;

    }
    lemma_exit_stub(g.filed, g.file);
    assert(s.initialized(app).bus.get_word(0x100) == 0xA9F4) by {
        assert(v.get_byte(0x100) == g.device.get_byte(0x100) && v.get_byte(0x101) == g.device.get_byte(0x101)) by {
            lemma_vectors_spare(g.device, 0x100);
            lemma_vectors_spare(g.device, 0x101);
        }
        crate::interrupt_laws::lemma_same_word(v, g.device, 0x100);
        broadcast use group_memory_reads;

    }
    assert(s.initialized(app).bus.get_byte(a) == 0xA5) by {
        assert(g.zone.get_byte(a) == 0xA5) by {
            broadcast use group_memory_bytes;

            reveal(zone_made);
            reveal(crate::memory::set_fill);
        }
        lemma_far_above(s, app, a);
    }
}

proof fn lemma_vectors_spare(b: BusView, a: u32)
    requires
        0x1000 <= b.heap,
        b.heap + 0x100 <= b.mem.len() <= u32::MAX - 1024,
        a < 0x574,
    ensures
        vectors_installed(b).get_byte(a) == b.get_byte(a),
{
    broadcast use group_memory_bytes;

    reveal(vectors_installed);
    let b1 = with_plain_vector(b, crate::globals::SWAP_MMU_MODE_TRAP, 0xA05D);
    assert(b1.get_byte(a) == b.get_byte(a));
    let b2 = with_stack_vector(b1, crate::globals::J_HIDE_CURSOR, 0xA852);
    assert(b2.get_byte(a) == b1.get_byte(a));
    let b3 = with_plain_vector(b2, crate::globals::J_SHOW_CURSOR, 0xA853);
    assert(b3.get_byte(a) == b2.get_byte(a));
    let b4 = with_stack_vector(b3, crate::globals::J_SHIELD_CURSOR, 0xA855);
    assert(b4.get_byte(a) == b3.get_byte(a));
}

proof fn lemma_exit_stub(d: DispView, b: BusView)
    requires
        0x1000 <= b.heap,
        b.heap + 0x500 <= b.mem.len() <= u32::MAX - 1024,
        0x0010_0000 <= b.mem.len(),
    ensures
        d.equipped(b).1.get_word(0x100) == 0xA9F4,
{
    reveal(DispView::equipped);
    reveal(handle_made);
    let bytes = seq![0u8, 0u8, 0u8, 0u8];
    let (resources, b1, handle) = d.resources.with_system_handle(b, bytes);
    let b2 = b1.long(crate::globals::APP_PARM_HANDLE, handle).word(crate::startup::EXIT_STUB, 0xA9F4);
    assert(b2.get_word(0x100) == 0xA9F4) by {
        broadcast use group_memory_reads;

    }
    let b3 = d.equipped(b).1;
    assert forall|a: u32| 0x100 <= a < 0x102 implies #[trigger] b3.get_byte(a) == b2.get_byte(a) by {
        broadcast use group_memory_bytes;

        reveal(Screen::made);
        reveal(device_made);
        if d.screen.gdevice == 0 {
            let base = screen_base(b2.ram_size());
            let (gd, c1) = b2.allocated(crate::screen::GDEVICE_SIZE);
            let (gdh, c2) = c1.allocated(4);
            let (pm, c3) = c2.allocated(crate::screen::PIXMAP_SIZE);
            let (pmh, c4) = c3.allocated(4);
            let e = device_written(c4, gd, gdh, pm, pmh, base);
            assert(e.get_byte(a) == c4.get_byte(a));
        }
    }
    assert(b3.get_byte(0x100) == b2.get_byte(0x100) && b3.get_byte(0x101) == b2.get_byte(0x101));
    crate::interrupt_laws::lemma_same_word(b3, b2, 0x100);
}

/// A byte far behind the heap, apart from the sound buffer and the return address.
proof fn lemma_far_above(s: RunnerView, app: AppView, a: u32)
    requires
        room_to_start(s, app),
        s.bus.heap + 0x1000 <= a < app.initial_sp - 4,
        ({
            let sound = s.bus.mem.len() - 0x0008_0000 + 480_000;
            a < sound || a >= sound + 740
        }),
    ensures
        s.initialized(app).bus.get_byte(a) == start(s, app).zone.get_byte(a),
{
    broadcast use group_memory_bytes;

    lemma_start(s, app);
    let g = start(s, app);
    assert(g.file.get_byte(a) == g.zone.get_byte(a)) by {
        lemma_file_far(s.disp, g.zone, a);
    }
    assert(g.device.get_byte(a) == g.file.get_byte(a)) by {
        lemma_equipped_far(g.filed, g.file, a);
    }
    assert(vectors_installed(g.device).get_byte(a) == g.device.get_byte(a)) by {
        reveal(vectors_installed);
        let b1 = with_plain_vector(g.device, crate::globals::SWAP_MMU_MODE_TRAP, 0xA05D);
        assert(b1.get_byte(a) == g.device.get_byte(a));
        let b2 = with_stack_vector(b1, crate::globals::J_HIDE_CURSOR, 0xA852);
        assert(b2.get_byte(a) == b1.get_byte(a));
        let b3 = with_plain_vector(b2, crate::globals::J_SHOW_CURSOR, 0xA853);
        assert(b3.get_byte(a) == b2.get_byte(a));
        let b4 = with_stack_vector(b3, crate::globals::J_SHIELD_CURSOR, 0xA855);
        assert(b4.get_byte(a) == b3.get_byte(a));
    }
}

proof fn lemma_file_far(d: DispView, b: BusView, a: u32)
    requires
        0x1000 <= b.heap,
        b.heap + 0x800 <= b.mem.len() <= u32::MAX - 1024,
        a >= b.heap + 0x800,
    ensures
        d.file_opened(b).1.get_byte(a) == b.get_byte(a),
{
    broadcast use group_memory_bytes;

    reveal(DispView::file_opened);
    if let Some(path) = d.launched_app_path {
        let vfs = d.files.vfs.with_metadata(path);
        let (vcb, b1) = b.allocated(crate::startup::HFS_VCB_SIZE);
        let b2 = volume_written(b1, vcb, d.files.default_dir_id);
        assert(b2.get_byte(a) == b.get_byte(a)) by {
            reveal(volume_written);
            let c = b1.filled(vcb, crate::startup::HFS_VCB_SIZE, 0).word(vcb.wrapping_add(8), 0x4244);
            lemma_pstring_quiet(c, vcb.wrapping_add(44), encode_utf8(crate::startup::boot_volume_name()), 27, a);
        }
        assert(b2.heap == b1.heap && b2.mem.len() == b1.mem.len()) by {
            reveal(volume_written);
        }
        let (fcbs, b3) = b2.allocated(crate::startup::HFS_FCB_BUFFER_SIZE as u32);
        let m = vfs.metadata[path];
        let len = vfs.resource_of(path).len() as u32;
        let name = crate::text::base_name(path);
        assert(file_block_written(b3, fcbs, vcb, m, len, name).get_byte(a) == b3.get_byte(a)) by {
            reveal(file_block_written);
            let fcb = fcbs.wrapping_add(crate::startup::APPLICATION_RESOURCE_REFNUM as u32);
            let c = b3.filled(fcbs, crate::startup::HFS_FCB_BUFFER_SIZE as u32, 0).word(
                fcbs,
                crate::startup::HFS_FCB_BUFFER_SIZE,
            ).long(fcb, m.file_id).word(fcb.wrapping_add(4), 0x0200).long(fcb.wrapping_add(8), len).long(
                fcb.wrapping_add(12),
                len,
            ).long(fcb.wrapping_add(20), vcb).long(fcb.wrapping_add(50), m.file_type).long(
                fcb.wrapping_add(58),
                m.parent_dir_id,
            );
            assert(c.get_byte(a) == b3.get_byte(a));
            lemma_pstring_quiet(c, fcb.wrapping_add(62), encode_utf8(name), 31, a);
        }
    }
}

proof fn lemma_equipped_far(d: DispView, b: BusView, a: u32)
    requires
        0x1000 <= b.heap,
        b.heap + 0x500 <= b.mem.len() <= u32::MAX - 1024,
        0x0010_0000 <= b.mem.len(),
        a >= b.heap + 0x400,
        ({
            let sound = b.mem.len() - 0x0008_0000 + 480_000;
            a < sound || a >= sound + 740
        }),
    ensures
        d.equipped(b).1.get_byte(a) == b.get_byte(a),
{
    broadcast use group_memory_bytes;

    reveal(DispView::equipped);
    reveal(handle_made);
    let bytes = seq![0u8, 0u8, 0u8, 0u8];
    let (resources, b1, handle) = d.resources.with_system_handle(b, bytes);
    assert(b1.get_byte(a) == b.get_byte(a));
    let b2 = b1.long(crate::globals::APP_PARM_HANDLE, handle).word(crate::startup::EXIT_STUB, 0xA9F4);
    reveal(Screen::made);
    reveal(device_made);
    if d.screen.gdevice == 0 {
        let base = screen_base(b2.ram_size());
        assert(base + SCREEN_BYTES == b.mem.len() - 0x0008_0000 + 480_000);
        let (gd, c1) = b2.allocated(crate::screen::GDEVICE_SIZE);
        let (gdh, c2) = c1.allocated(4);
        let (pm, c3) = c2.allocated(crate::screen::PIXMAP_SIZE);
        let (pmh, c4) = c3.allocated(4);
        let e = device_written(c4, gd, gdh, pm, pmh, base);
        assert(e.get_byte(a) == c4.get_byte(a));
    }
}

/// A routine at `t` runs `trap` and returns.
pub open spec fn runs_trap(b: BusView, t: u32, trap: u16) -> bool {
    b.get_word(t) == trap && b.get_word((t + 2) as u32) == 0x4E75
}

/// A routine at `t` takes its return address off the stack, runs `trap`, and jumps there.
pub open spec fn runs_stack_trap(b: BusView, t: u32, trap: u16) -> bool {
    b.get_word(t) == 0x205F && b.get_word((t + 2) as u32) == trap && b.get_word((t + 4) as u32) == 0x4ED0
}

/// The jump vectors that applications call directly lead to routines that run the traps
/// they stand for: `SwapMMUMode`, `HideCursor`, `ShowCursor`, `ShieldCursor` and
/// `FMSwapFont`.
pub proof fn lemma_vectors_lead_to_traps(b: BusView)
    requires
        0x1000 <= b.heap,
        b.heap + 0x100 <= b.mem.len() <= u32::MAX - 1024,
    ensures
        ({
            let c = vectors_installed(b);
            &&& runs_trap(c, c.get_long(0x574), 0xA05D)
            &&& runs_stack_trap(c, c.get_long(0x800), 0xA852)
            &&& runs_trap(c, c.get_long(0x804), 0xA853)
            &&& runs_stack_trap(c, c.get_long(0x808), 0xA855)
            &&& runs_stack_trap(c, c.get_long(0x8E0), 0xA901)
        }),
{
    broadcast use group_memory_reads;

    reveal(vectors_installed);
    let b1 = with_plain_vector(b, crate::globals::SWAP_MMU_MODE_TRAP, 0xA05D);
    let b2 = with_stack_vector(b1, crate::globals::J_HIDE_CURSOR, 0xA852);
    let b3 = with_plain_vector(b2, crate::globals::J_SHOW_CURSOR, 0xA853);
    let b4 = with_stack_vector(b3, crate::globals::J_SHIELD_CURSOR, 0xA855);
    assert(b1.get_long(0x574) == b.heap && b1.heap == b.heap + 4);
    assert(runs_trap(b1, b.heap, 0xA05D));
    assert(b2.get_long(0x800) == b1.heap && b2.heap == b1.heap + 8 && b2.get_long(0x574) == b.heap);
    assert(runs_stack_trap(b2, b1.heap, 0xA852) && runs_trap(b2, b.heap, 0xA05D));
    assert(b3.get_long(0x804) == b2.heap && b3.heap == b2.heap + 4 && b3.get_long(0x574) == b.heap && b3.get_long(0x800)
        == b1.heap);
    assert(runs_trap(b3, b2.heap, 0xA853) && runs_stack_trap(b3, b1.heap, 0xA852) && runs_trap(b3, b.heap, 0xA05D));
    assert(b4.get_long(0x808) == b3.heap && b4.heap == b3.heap + 8 && b4.get_long(0x574) == b.heap && b4.get_long(0x800)
        == b1.heap && b4.get_long(0x804) == b2.heap);
    assert(runs_stack_trap(b4, b3.heap, 0xA855) && runs_trap(b4, b2.heap, 0xA853) && runs_stack_trap(b4, b1.heap, 0xA852)
        && runs_trap(b4, b.heap, 0xA05D));
}

/// A launched application goes on with the clocks and the mouse button of the one before
/// it: ticks, seconds and the button are in low memory as they were.
pub proof fn lemma_clock_goes_on(b: BusView, tick: u32, time: u32, button: bool, screen: Screen)
    requires
        0x1000 <= b.mem.len() <= 0x1_0000_0000,
        0x1000 <= screen.base,
        screen.menu_bar_hidden,
    ensures
        ({
            let c = crate::launch::clock_carried_on(b, tick, time, button, screen);
            &&& c.get_long(0x16A) == tick
            &&& c.get_long(0x20C) == time
            &&& c.get_byte(0x172) == if button { 0u8 } else { 0x80u8 }
        }),
{
    reveal(crate::launch::clock_carried_on);
    let d = b.long(0x16A, tick).long(0x20C, time).byte(0x172, if button { 0u8 } else { 0x80u8 });
    assert(d.get_long(0x16A) == tick && d.get_long(0x20C) == time) by {
        broadcast use group_memory_reads;

    }
    let c = crate::launch::clock_carried_on(b, tick, time, button, screen);
    assert forall|a: u32| a < 0x1000 implies #[trigger] c.get_byte(a) == d.get_byte(a) by {
        broadcast use group_memory_bytes;

    }
    assert(crate::clock_laws::same_low_memory(c, d));
    crate::clock_laws::lemma_same_low_long(c, d, 0x16A);
    crate::clock_laws::lemma_same_low_long(c, d, 0x20C);
    assert(c.get_byte(0x172) == d.get_byte(0x172));
}

/// A Pascal string: its length, which is at most `max`, and then that many bytes.
pub proof fn lemma_pascal_string(b: BusView, ptr: u32, bytes: Seq<u8>, max: nat, a: u32)
    requires
        max <= 255,
        ptr + 1 + max <= b.mem.len() <= u32::MAX,
    ensures
        ({
            let c = with_pstring(b, ptr, bytes, max);
            let n = c.get_byte(ptr);
            &&& n <= max
            &&& n == bytes.len() || (n == max && bytes.len() > max)
            &&& forall|i: int| 0 <= i < n ==> c.get_byte((ptr + 1 + i) as u32) == #[trigger] bytes[i]
            &&& a < ptr || a > ptr + n ==> c.get_byte(a) == b.get_byte(a)
        }),
{
    broadcast use group_memory_bytes;

    let n = if bytes.len() < max { bytes.len() } else { max };
    let c = with_pstring(b, ptr, bytes, max);
    assert(c.get_byte(ptr) == n);
    assert forall|i: int| 0 <= i < n implies c.get_byte((ptr + 1 + i) as u32) == #[trigger] bytes[i] by {
        reveal(crate::memory::set_bytes);
        assert(bytes.take(n as int)[i] == bytes[i]);
    }
}

/// An application finds its name in low memory as a Pascal string of at most 31 bytes, the
/// number of its folder, and the start volume as the one to save to.
pub proof fn lemma_application_knows_its_name(s: RunnerView, app: AppView, path: Seq<char>)
    requires
        room_to_start(s, app),
        s.disp.launched_app_path == Some(path),
    ensures
        ({
            let b = s.initialized(app).bus;
            let name = encode_utf8(crate::text::base_name(path));
            let n = b.get_byte(0x910);
            &&& n <= 31
            &&& n == name.len() || (n == 31 && name.len() > 31)
            &&& forall|i: int| 0 <= i < n ==> b.get_byte((0x911 + i) as u32) == #[trigger] name[i]
            &&& b.get_long(0x398) == s.disp.files.default_dir_id
            &&& b.get_word(0x214) == 1
        }),
{
    lemma_start(s, app);
    lemma_kept_since_zone(s, app);
    let g = start(s, app);
    let e = s.initialized(app).bus;
    let name = encode_utf8(crate::text::base_name(path));
    let b1 = g.opened.word(crate::globals::CUR_APREF_NUM, 0);
    let b2 = with_pstring(b1, 0x910, name, 31);
    assert(g.named == b2.long(0x398, s.disp.files.default_dir_id).word(0x214, 1)) by {
        reveal(identified);
    }
    assert forall|a: u32| a < 0x1000 implies #[trigger] g.zone.get_byte(a) == g.named.get_byte(a) by {
        broadcast use group_memory_bytes;

        reveal(zone_made);
    }
    assert forall|a: u32| 0x910 <= a < 0x930 implies #[trigger] e.get_byte(a) == b2.get_byte(a) by {
        broadcast use group_memory_bytes;

        assert(e.get_byte(a) == g.zone.get_byte(a));
        assert(g.zone.get_byte(a) == g.named.get_byte(a));
    }
    lemma_pascal_string(b1, 0x910, name, 31, 0);
    assert(e.get_byte(0x910) == b2.get_byte(0x910));
    assert forall|i: int| 0 <= i < e.get_byte(0x910) implies e.get_byte((0x911 + i) as u32) == #[trigger] name[i] by {
        assert(e.get_byte((0x911 + i) as u32) == b2.get_byte((0x911 + i) as u32));
        assert(b2.get_byte((0x910 + 1 + i) as u32) == name[i]);
    }
    assert(g.named.get_long(0x398) == s.disp.files.default_dir_id && g.named.get_word(0x214) == 1) by {
        broadcast use group_memory_reads;

    }
    assert forall|a: u32| 0x398 <= a < 0x39C || 0x214 <= a < 0x216 implies #[trigger] e.get_byte(a) == g.named.get_byte(a) by {
        assert(e.get_byte(a) == g.zone.get_byte(a));
        assert(g.zone.get_byte(a) == g.named.get_byte(a));
    }
    assert(e.get_byte(0x398) == g.named.get_byte(0x398) && e.get_byte(0x399) == g.named.get_byte(0x399));
    assert(e.get_byte(0x39A) == g.named.get_byte(0x39A) && e.get_byte(0x39B) == g.named.get_byte(0x39B));
    crate::interrupt_laws::lemma_same_long(e, g.named, 0x398);
    assert(e.get_byte(0x214) == g.named.get_byte(0x214) && e.get_byte(0x215) == g.named.get_byte(0x215));
    crate::interrupt_laws::lemma_same_word(e, g.named, 0x214);
}

proof fn lemma_string_apart(b: BusView, ptr: u32, bytes: Seq<u8>, max: nat, a: u32)
    requires
        max <= 255,
        ptr + 1 + max <= u32::MAX,
        a + 4 <= ptr || a > ptr + max,
        a + 4 <= b.mem.len() <= u32::MAX,
    ensures
        with_pstring(b, ptr, bytes, max).get_long(a) == b.get_long(a),
        with_pstring(b, ptr, bytes, max).get_word(a) == b.get_word(a),
        with_pstring(b, ptr, bytes, max).mem.len() == b.mem.len(),
{
    let c = with_pstring(b, ptr, bytes, max);
    lemma_pstring_quiet(b, ptr, bytes, max, a);
    lemma_pstring_quiet(b, ptr, bytes, max, (a + 1) as u32);
    lemma_pstring_quiet(b, ptr, bytes, max, (a + 2) as u32);
    lemma_pstring_quiet(b, ptr, bytes, max, (a + 3) as u32);
    crate::interrupt_laws::lemma_same_long(c, b, a);
    crate::interrupt_laws::lemma_same_word(c, b, a);
}

/// The control block of the start volume bears the mark of its file system, the volume's
/// name and number and the number of the folder; the globals lead to it, as the only one
/// and as the default.
pub proof fn lemma_start_volume(b: BusView, vcb: u32, dir_id: u32)
    requires
        0x1000 <= vcb,
        vcb + 180 <= b.mem.len() <= u32::MAX,
    ensures
        ({
            let c = volume_written(b, vcb, dir_id);
            let name = encode_utf8("Macintosh HD"@);
            let n = c.get_byte((vcb + 44) as u32);
            &&& c.get_word((vcb + 8) as u32) == 0x4244
            &&& c.get_word((vcb + 78) as u32) == 0xFFFF
            &&& c.get_long((vcb + 172) as u32) == dir_id
            &&& n == name.len() || (n == 27 && name.len() > 27)
            &&& forall|i: int| 0 <= i < n ==> c.get_byte((vcb + 45 + i) as u32) == #[trigger] name[i]
            &&& c.get_long(0x352) == vcb
            &&& c.get_long(0x358) == vcb
            &&& c.get_long(0x35C) == vcb
            &&& c.heap == b.heap
        }),
{
    reveal(volume_written);
    let name = encode_utf8("Macintosh HD"@);
    let at = (vcb + 44) as u32;
    let b0 = b.filled(vcb, 178, 0).word((vcb + 8) as u32, 0x4244);
    let b1 = with_pstring(b0, at, name, 27);
    let c = volume_written(b, vcb, dir_id);
    assert(c == b1.word((vcb + 78) as u32, 0xFFFF).long((vcb + 172) as u32, dir_id).long(0x352, vcb).word(0x356, 0).long(
        0x358,
        vcb,
    ).long(0x35C, vcb)) by {
        assert((-1i16) as u16 == 0xFFFF) by (bit_vector);
    }
    lemma_string_apart(b0, at, name, 27, (vcb + 8) as u32);
    lemma_pascal_string(b0, at, name, 27, 0);
    assert(b0.get_word((vcb + 8) as u32) == 0x4244) by {
        broadcast use group_memory_reads;

    }
    assert(c.get_word((vcb + 8) as u32) == 0x4244 && c.get_word((vcb + 78) as u32) == 0xFFFF && c.get_long((vcb + 172) as u32)
        == dir_id && c.get_long(0x352) == vcb && c.get_long(0x358) == vcb && c.get_long(0x35C) == vcb) by {
        broadcast use group_memory_reads;

    }
    assert forall|a: u32| at <= a <= at + 27 implies #[trigger] c.get_byte(a) == b1.get_byte(a) by {
        broadcast use group_memory_bytes;

    }
    assert(c.get_byte(at) == b1.get_byte(at));
    assert forall|i: int| 0 <= i < c.get_byte(at) implies c.get_byte((vcb + 45 + i) as u32) == #[trigger] name[i] by {
        assert(c.get_byte((at + 1 + i) as u32) == b1.get_byte((at + 1 + i) as u32));
    }
}

/// The first file control block is that of the application's resource fork: its number,
/// its flag, its size twice, its volume, its type, its folder and its name.
pub proof fn lemma_application_file_block(b: BusView, fcbs: u32, vcb: u32, m: crate::vfs::VfsMetadata, len: u32, name: Seq<char>)
    requires
        0x1000 <= fcbs,
        fcbs + 96 <= b.mem.len() <= u32::MAX,
    ensures
        ({
            let c = file_block_written(b, fcbs, vcb, m, len, name);
            let n = c.get_byte((fcbs + 64) as u32);
            &&& c.get_word(fcbs) == 96
            &&& c.get_long((fcbs + 2) as u32) == m.file_id
            &&& c.get_word((fcbs + 6) as u32) == 0x0200
            &&& c.get_long((fcbs + 10) as u32) == len
            &&& c.get_long((fcbs + 14) as u32) == len
            &&& c.get_long((fcbs + 22) as u32) == vcb
            &&& c.get_long((fcbs + 52) as u32) == m.file_type
            &&& c.get_long((fcbs + 60) as u32) == m.parent_dir_id
            &&& n == encode_utf8(name).len() || (n == 31 && encode_utf8(name).len() > 31)
            &&& forall|i: int| 0 <= i < n ==> c.get_byte((fcbs + 65 + i) as u32) == #[trigger] encode_utf8(name)[i]
            &&& c.get_long(0x34E) == fcbs
            &&& c.get_word(0x3F6) == 94
            &&& c.get_word(0x900) == 2
        }),
{
    reveal(file_block_written);
    let bytes = encode_utf8(name);
    let at = (fcbs + 64) as u32;
    let b0 = b.filled(fcbs, 96, 0).word(fcbs, 96).long((fcbs + 2) as u32, m.file_id).word((fcbs + 6) as u32, 0x0200).long(
        (fcbs + 10) as u32,
        len,
    ).long((fcbs + 14) as u32, len).long((fcbs + 22) as u32, vcb).long((fcbs + 52) as u32, m.file_type).long(
        (fcbs + 60) as u32,
        m.parent_dir_id,
    );
    let b1 = with_pstring(b0, at, bytes, 31);
    let c = file_block_written(b, fcbs, vcb, m, len, name);
    assert(c == b1.long(0x34E, fcbs).word(0x3F6, 94).word(0x900, 2));
    lemma_pascal_string(b0, at, bytes, 31, 0);
    lemma_string_apart(b0, at, bytes, 31, fcbs);
    lemma_string_apart(b0, at, bytes, 31, (fcbs + 2) as u32);
    lemma_string_apart(b0, at, bytes, 31, (fcbs + 6) as u32);
    lemma_string_apart(b0, at, bytes, 31, (fcbs + 10) as u32);
    lemma_string_apart(b0, at, bytes, 31, (fcbs + 14) as u32);
    lemma_string_apart(b0, at, bytes, 31, (fcbs + 22) as u32);
    lemma_string_apart(b0, at, bytes, 31, (fcbs + 52) as u32);
    lemma_string_apart(b0, at, bytes, 31, (fcbs + 60) as u32);
    assert(b1.get_word(fcbs) == 96 && b1.get_long((fcbs + 2) as u32) == m.file_id && b1.get_word((fcbs + 6) as u32) == 0x0200
        && b1.get_long((fcbs + 10) as u32) == len && b1.get_long((fcbs + 14) as u32) == len && b1.get_long((fcbs + 22) as u32)
        == vcb && b1.get_long((fcbs + 52) as u32) == m.file_type && b1.get_long((fcbs + 60) as u32) == m.parent_dir_id) by {
        broadcast use group_memory_reads;

    }
    assert(c.get_word(fcbs) == b1.get_word(fcbs) && c.get_long((fcbs + 2) as u32) == b1.get_long((fcbs + 2) as u32)
        && c.get_word((fcbs + 6) as u32) == b1.get_word((fcbs + 6) as u32) && c.get_long((fcbs + 10) as u32) == b1.get_long(
        (fcbs + 10) as u32,
    ) && c.get_long((fcbs + 14) as u32) == b1.get_long((fcbs + 14) as u32) && c.get_long((fcbs + 22) as u32) == b1.get_long(
        (fcbs + 22) as u32,
    ) && c.get_long((fcbs + 52) as u32) == b1.get_long((fcbs + 52) as u32) && c.get_long((fcbs + 60) as u32) == b1.get_long(
        (fcbs + 60) as u32,
    ) && c.get_long(0x34E) == fcbs && c.get_word(0x3F6) == 94 && c.get_word(0x900) == 2) by {
        broadcast use group_memory_reads;

    }
    assert forall|a: u32| at <= a <= at + 31 implies #[trigger] c.get_byte(a) == b1.get_byte(a) by {
        broadcast use group_memory_bytes;

    }
    assert(c.get_byte(at) == b1.get_byte(at));
    assert forall|i: int| 0 <= i < c.get_byte(at) implies c.get_byte((fcbs + 65 + i) as u32) == #[trigger] bytes[i] by {
        assert(c.get_byte((at + 1 + i) as u32) == b1.get_byte((at + 1 + i) as u32));
    }
}

/// An application that begins has its own resource fork open under number 2, at its
/// beginning, and knows it by that number.
pub proof fn lemma_application_has_its_file_open(s: RunnerView, app: AppView, path: Seq<char>)
    requires
        room_to_start(s, app),
        s.disp.launched_app_path == Some(path),
    ensures
        ({
            let files = s.initialized(app).disp.files;
            &&& files.open_files.len() == s.disp.files.open_files.len() + 1
            &&& files.open_files.last().refnum == 2
            &&& files.open_files.last().position == 0
            &&& files.open_files.last().path == crate::vfs::resource_mark() + path
            &&& files.open_files.drop_last() == s.disp.files.open_files
        }),
{
    lemma_start(s, app);
    let g = start(s, app);
    assert(g.filed.equipped(g.file).0.files == g.filed.files) by {
        reveal(DispView::equipped);
    }
    reveal(DispView::file_opened);
    reveal(volume_written);
}

/// The main graphics device that is made for an application describes the screen: 800 by
/// 600 pixels of 8 bits, 512 kilobytes below the end of RAM; the globals lead to it, and
/// the sound buffer behind the screen is silent.
pub proof fn lemma_screen_at_start(screen: Screen, b: BusView, a: u32)
    requires
        screen.gdevice == 0,
        0x1000 <= b.heap,
        b.heap + 0x8_0000 + 0x100 <= b.mem.len() <= u32::MAX,
    ensures
        ({
            let (t, c) = screen.made(b);
            &&& t.base == b.mem.len() - 0x8_0000
            &&& t.row_bytes == 800
            &&& t.width == 800
            &&& t.height == 600
            &&& t.pixel_size == 8
            &&& t.menu_bar_hidden == screen.menu_bar_hidden
            &&& t.gdevice != 0
            &&& c.get_long(0x8A4) == t.gdevice
            &&& c.get_long(0x8A8) == t.gdevice
            &&& c.get_long(0xCC8) == t.gdevice
            &&& c.get_long(0x266) == t.base + 480_000
            &&& t.base + 480_000 <= a < t.base + 480_740 ==> c.get_byte(a) == 0x80
        }),
{
    reveal(Screen::made);
    reveal(device_made);
    let base = screen_base(b.ram_size());
    let (gd, b1) = b.allocated(62);
    let (gdh, b2) = b1.allocated(4);
    let (pm, b3) = b2.allocated(50);
    let (pmh, b4) = b3.allocated(4);
    assert(gd == b.heap && gdh == b.heap + 64 && pm == b.heap + 68 && pmh == b.heap + 120);
    let b5 = device_written(b4, gd, gdh, pm, pmh, base);
    let b6 = b5.long(0x266, (base + 480_000) as u32);
    let b7 = b6.filled((base + 480_000) as u32, 740, 0x80);
    let c = b7.long(0x8A4, gdh).long(0xCC8, gdh).long(0x8A8, gdh);
    assert(screen.made(b).1 == c);
    assert(b6.get_long(gdh) == gd && b6.get_long((gd + 22) as u32) == pmh && b6.get_long(pmh) == pm && b6.get_long(pm) == base
        && b6.get_word((pm + 4) as u32) == 0x8320 && b6.get_word((pm + 6) as u32) == 0 && b6.get_word((pm + 8) as u32) == 0
        && b6.get_word((pm + 10) as u32) == 600 && b6.get_word((pm + 12) as u32) == 800 && b6.get_word((pm + 32) as u32) == 8
        && b6.get_long(0x266) == base + 480_000) by {
        broadcast use group_memory_reads;

    }
    assert forall|x: u32| x < base implies #[trigger] b7.get_byte(x) == b6.get_byte(x) by {
        broadcast use group_memory_bytes;

    }
    lemma_read_below(b6, b7, base, gdh);
    lemma_read_below(b6, b7, base, (gd + 22) as u32);
    lemma_read_below(b6, b7, base, pmh);
    lemma_read_below(b6, b7, base, pm);
    lemma_read_below(b6, b7, base, (pm + 4) as u32);
    lemma_read_below(b6, b7, base, (pm + 6) as u32);
    lemma_read_below(b6, b7, base, (pm + 8) as u32);
    lemma_read_below(b6, b7, base, (pm + 10) as u32);
    lemma_read_below(b6, b7, base, (pm + 12) as u32);
    lemma_read_below(b6, b7, base, (pm + 32) as u32);
    lemma_read_below(b6, b7, base, 0x266);
    assert(c.get_long(gdh) == gd && c.get_long((gd + 22) as u32) == pmh && c.get_long(pmh) == pm && c.get_long(pm) == base
        && c.get_word((pm + 4) as u32) == 0x8320 && c.get_word((pm + 6) as u32) == 0 && c.get_word((pm + 8) as u32) == 0
        && c.get_word((pm + 10) as u32) == 600 && c.get_word((pm + 12) as u32) == 800 && c.get_word((pm + 32) as u32) == 8
        && c.get_long(0x266) == base + 480_000 && c.get_long(0x8A4) == gdh && c.get_long(0x8A8) == gdh && c.get_long(0xCC8)
        == gdh) by {
        broadcast use group_memory_reads;

    }
    assert(0x8320u16 & 0x3FFFu16 == 800 && 0u16 as i16 == 0 && 600u16 as i16 == 600 && 800u16 as i16 == 800) by (bit_vector);
    if base + 480_000 <= a < base + 480_740 {
        broadcast use group_memory_bytes;

        assert(b7.get_byte(a) == 0x80) by {
            reveal(crate::memory::set_fill);
        }
        assert(c.get_byte(a) == b7.get_byte(a));
    }
}

proof fn lemma_read_below(b: BusView, c: BusView, limit: u32, at: u32)
    requires
        at + 4 <= limit,
        forall|x: u32| x < limit ==> #[trigger] c.get_byte(x) == b.get_byte(x),
        c.mem.len() == b.mem.len(),
    ensures
        c.get_long(at) == b.get_long(at),
        c.get_word(at) == b.get_word(at),
{
    assert(c.get_byte(at) == b.get_byte(at) && c.get_byte((at + 1) as u32) == b.get_byte((at + 1) as u32));
    assert(c.get_byte((at + 2) as u32) == b.get_byte((at + 2) as u32) && c.get_byte((at + 3) as u32) == b.get_byte(
        (at + 3) as u32,
    ));
    crate::interrupt_laws::lemma_same_long(c, b, at);
    crate::interrupt_laws::lemma_same_word(c, b, at);
}

/// An application finds a gray screen below a menu bar, where black and white pixels
/// alternate in each row and each column, and a black one without.
pub proof fn lemma_cleared_screen(b: BusView, screen: Screen, x: int, y: int)
    requires
        0 <= x < screen.width,
        0 <= y < screen.height,
        screen.width <= screen.row_bytes <= 0x4000,
        screen.base + screen.row_bytes * screen.height <= b.mem.len() <= u32::MAX,
    ensures
        ({
            let pixel = crate::screen::screen_cleared(b, screen).get_byte((screen.base + screen.row_bytes * y + x) as u32);
            pixel == if screen.menu_bar_hidden || (x + y) % 2 == 0 {
                0xFFu8
            } else {
                0u8
            }
        }),
{
    let w = screen.row_bytes as int;
    let h = screen.height as int;
    assert(0 <= w * y && w * y + w <= w * h && w * h < 0x1_0000_0000) by (nonlinear_arith)
        requires
            0 <= y < h,
            0 <= w <= 0x4000,
            h <= 0xFFFF,
    ;
    if screen.menu_bar_hidden {
        reveal(crate::memory::set_fill);
    } else {
        lemma_gray_pixel(b, screen, screen.height as nat, x, y);
    }
}

proof fn lemma_gray_pixel(b: BusView, screen: Screen, n: nat, x: int, y: int)
    requires
        0 <= x < screen.width,
        0 <= y < n <= screen.height,
        screen.width <= screen.row_bytes <= 0x4000,
        screen.base + screen.row_bytes * screen.height <= b.mem.len() <= u32::MAX,
    ensures
        crate::screen::gray_rows(b, screen, n).get_byte((screen.base + screen.row_bytes * y + x) as u32) == if (x + y) % 2
            == 0 {
            0xFFu8
        } else {
            0u8
        },
        crate::screen::gray_rows(b, screen, n).mem.len() == b.mem.len(),
    decreases n,
{
    let w = screen.row_bytes as int;
    let h = screen.height as int;
    let m = (n - 1) as nat;
    assert(0 <= w * m && w * m + w <= w * h && w * h < 0x1_0000_0000 && 0 <= w * y && w * y + w <= w * h) by (nonlinear_arith)
        requires
            0 <= y < h,
            0 <= m < h,
            0 <= w <= 0x4000,
            h <= 0xFFFF,
    ;
    let g = crate::screen::gray_rows(b, screen, m);
    let row = crate::screen::gray_row(m as int, screen.width);
    let at = (screen.base + w * m) as u32;
    assert(crate::screen::gray_rows(b, screen, n) == g.bytes(at, row));
    let a = (screen.base + w * y + x) as u32;
    lemma_gray_len(b, screen, m);
    if y == m {
        reveal(crate::memory::set_bytes);
        assert(row[x] == if (x + y) % 2 == 0 {
            0xFFu8
        } else {
            0u8
        });
    } else {
        lemma_gray_pixel(b, screen, m, x, y);
        assert(w * y + w <= w * m) by (nonlinear_arith)
            requires
                0 <= y < m,
                0 <= w,
        ;
        broadcast use group_memory_bytes;

    }
}

proof fn lemma_gray_len(b: BusView, screen: Screen, n: nat)
    ensures
        crate::screen::gray_rows(b, screen, n).mem.len() == b.mem.len(),
    decreases n,
{
    if n > 0 {
        lemma_gray_len(b, screen, (n - 1) as nat);
    }
}

/// A machine without a screen has one when an application begins: 800 by 600 pixels of 8
/// bits, 512 kilobytes below the end of RAM.
pub proof fn lemma_application_has_a_screen(s: RunnerView, app: AppView)
    requires
        room_to_start(s, app),
        s.disp.screen.gdevice == 0,
        s.bus.heap + 0x8_1000 <= s.bus.mem.len(),
    ensures
        ({
            let t = s.initialized(app).disp.screen;
            &&& t.base == s.bus.mem.len() - 0x8_0000
            &&& t.row_bytes == 800
            &&& t.width == 800
            &&& t.height == 600
            &&& t.pixel_size == 8
            &&& t.menu_bar_hidden == s.disp.screen.menu_bar_hidden
            &&& t.gdevice != 0
        }),
{
    lemma_start(s, app);
    let g = start(s, app);
    lemma_file_opened_quiet(s.disp, g.zone, 0);
    reveal(DispView::equipped);
    reveal(handle_made);
    let (resources, b1, handle) = g.filed.resources.with_system_handle(g.file, seq![0u8, 0u8, 0u8, 0u8]);
    let b2 = b1.long(crate::globals::APP_PARM_HANDLE, handle).word(crate::startup::EXIT_STUB, 0xA9F4);
    assert(b2.heap <= g.file.heap + 8);
    lemma_screen_at_start(g.filed.screen, b2, 0);
}

/// The launch information that an application finds is a block of four zero bytes, which a
/// handle in low memory leads to.
pub proof fn lemma_launch_information(d: DispView, b: BusView)
    requires
        d.screen.gdevice != 0,
        0x1000 <= b.heap,
        b.heap + 8 <= b.mem.len() <= u32::MAX,
    ensures
        ({
            let (e, c) = d.equipped(b);
            let handle = c.get_long(0xAEC);
            let block = c.get_long(handle);
            &&& handle != 0
            &&& block != 0
            &&& c.get_byte(block) == 0
            &&& c.get_byte((block + 1) as u32) == 0
            &&& c.get_byte((block + 2) as u32) == 0
            &&& c.get_byte((block + 3) as u32) == 0
            &&& e.resources.handles.last() == (block, handle)
            &&& c.get_word(0x100) == 0xA9F4
            &&& e.tick_count == 600
        }),
{
    reveal(DispView::equipped);
    reveal(handle_made);
    reveal(Screen::made);
    reveal(device_made);
    let bytes = seq![0u8, 0u8, 0u8, 0u8];
    let block = b.heap;
    let handle = (b.heap + 4) as u32;
    let g = d.screen.gdevice;
    let b1 = b.allocated(4).1.bytes(block, bytes);
    let b2 = b1.allocated(4).1.long(handle, block);
    let c = b2.long(0xAEC, handle).word(0x100, 0xA9F4).long(0x8A4, g).long(0xCC8, g).long(0x8A8, g);
    assert(handle_made(b, bytes) == (handle, block, b2));
    assert(d.equipped(b).1 == c);
    assert(c.get_long(0xAEC) == handle && c.get_long(handle) == block && c.get_word(0x100) == 0xA9F4) by {
        broadcast use group_memory_reads;

    }
    assert forall|i: int| 0 <= i < 4 implies #[trigger] c.get_byte((block + i) as u32) == 0 by {
        broadcast use group_memory_bytes;

        reveal(crate::memory::set_bytes);
        assert(b1.get_byte((block + i) as u32) == bytes[i]);
    }
    assert(c.get_byte((block + 0) as u32) == 0 && c.get_byte((block + 1) as u32) == 0);
    assert(c.get_byte((block + 2) as u32) == 0 && c.get_byte((block + 3) as u32) == 0);
}

/// What is drawn around the application is drawn over what the application drew there: the
/// pixels of the part that comes last stand, unless it is not to be seen.
pub proof fn lemma_chrome_is_redrawn(d: DispView, b: BusView, i: int)
    requires
        d.shell.chrome.len() > 0,
        b.mem.len() <= u32::MAX,
        d.shell.chrome.last().at + d.shell.chrome.last().pixels.len() <= b.mem.len(),
        0 <= i < d.shell.chrome.last().pixels.len(),
        d.shell.chrome.last().kind is Window || (d.shell.chrome.last().kind is MenuBar && !d.screen.menu_bar_hidden),
    ensures
        d.redrawn(b).get_byte((d.shell.chrome.last().at + i) as u32) == d.shell.chrome.last().pixels[i],
{
    reveal(DispView::redrawn);
    let n = d.shell.chrome.len();
    lemma_chrome_len(d, b, (n - 1) as nat);
    reveal(crate::memory::set_bytes);
}

proof fn lemma_chrome_len(d: DispView, b: BusView, n: nat)
    ensures
        d.chrome_drawn(b, n).mem.len() == b.mem.len(),
    decreases n,
{
    if n > 0 {
        lemma_chrome_len(d, b, (n - 1) as nat);
    }
}

/// A hidden menu bar is not drawn: with nothing else around the application, what it drew
/// stands.
pub proof fn lemma_hidden_menu_bar_is_not_drawn(d: DispView, b: BusView)
    requires
        forall|i: int| 0 <= i < d.shell.chrome.len() ==> (#[trigger] d.shell.chrome[i]).kind is MenuBar,
        d.screen.menu_bar_hidden,
    ensures
        d.redrawn(b) == b,
{
    reveal(DispView::redrawn);
    lemma_hidden_parts(d, b, d.shell.chrome.len());
}

proof fn lemma_hidden_parts(d: DispView, b: BusView, n: nat)
    requires
        n <= d.shell.chrome.len(),
        forall|i: int| 0 <= i < d.shell.chrome.len() ==> (#[trigger] d.shell.chrome[i]).kind is MenuBar,
        d.screen.menu_bar_hidden,
    ensures
        d.chrome_drawn(b, n) == b,
    decreases n,
{
    if n > 0 {
        lemma_hidden_parts(d, b, (n - 1) as nat);
        assert(d.shell.chrome[n - 1].kind is MenuBar);
    }
}

} // verus!

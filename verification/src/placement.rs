use vstd::prelude::*;
use vstd::utf8::encode_utf8;

use crate::loader::{heap_start, less, more, AppView};
use crate::memory::{byte_at, bytes_at, group_memory_bytes, group_memory_lengths, BusView};
use crate::resource::ResourceView;
use crate::resource_manager::{handle_made, LoadedResource, ResourceTable};
use crate::runner::{RunnerView, APP_ZONE_HEADER_SIZE};
use crate::screen::{device_made, device_written, screen_base, Screen, SCREEN_BYTES, SOUND_BUFFER_BYTES};
use crate::startup::{
    file_block_written, globals_started, identified, vectors_installed, volume_written, with_plain_vector, with_pstring,
    with_stack_vector, zone_made, zone_opened, zone_plan, zone_prepared, STACK_SEED_BYTES,
};
use crate::trap::DispView;

verus! {

broadcast use {group_memory_lengths, group_memory_bytes};

/// The heap hands out no memory below where it did, and the byte at `a` stays.
spec fn spared(b: BusView, c: BusView, a: u32) -> bool {
    c.heap >= b.heap && c.mem.len() == b.mem.len() && c.get_byte(a) == b.get_byte(a)
}

proof fn lemma_pstring(b: BusView, ptr: u32, bytes: Seq<u8>, max: nat, a: u32)
    requires
        max <= 255,
        ptr + 1 + max <= u32::MAX,
        a < ptr || a > ptr + max,
    ensures
        spared(b, with_pstring(b, ptr, bytes, max), a),
{
}

proof fn lemma_globals(b: BusView, app: AppView, time: u32, keys: Seq<u8>, a: u32)
    requires
        a >= 0x1000,
        keys.len() == 16,
    ensures
        spared(b, globals_started(b, app, time, keys), a),
{
    reveal(globals_started);
}

proof fn lemma_zone(
    b: BusView,
    app: AppView,
    path: Option<Seq<char>>,
    dir_id: u32,
    requested: Option<u32>,
    a: u32,
)
    requires
        a >= 0x1000,
        app.zone_start() + APP_ZONE_HEADER_SIZE <= u32::MAX,
        a < app.zone_start() || a >= app.zone_start() + APP_ZONE_HEADER_SIZE,
        a < less(app.initial_sp, STACK_SEED_BYTES) || a >= app.initial_sp,
    ensures
        spared(b, zone_prepared(b, app, path, dir_id, requested), a),
{
    reveal(zone_prepared);
    let p = zone_plan(app, b.heap, requested);
    let c = zone_opened(b, p);
    assert(spared(b, c, a)) by {
        reveal(zone_opened);
    }
    let d = identified(c, path, dir_id);
    assert(spared(c, d, a)) by {
        reveal(identified);
        if let Some(s) = path {
            lemma_pstring(
                c.word(crate::globals::CUR_APREF_NUM, 0),
                crate::globals::CUR_APNAME,
                encode_utf8(crate::text::base_name(s)),
                31,
                a,
            );
        }
    }
    reveal(zone_made);
}

proof fn lemma_volume(b: BusView, vcb: u32, dir_id: u32, a: u32)
    requires
        0x1000 <= a < vcb,
        vcb + 256 <= u32::MAX,
    ensures
        spared(b, volume_written(b, vcb, dir_id), a),
{
    reveal(volume_written);
    let c = b.filled(vcb, crate::startup::HFS_VCB_SIZE, 0).word(vcb.wrapping_add(8), 0x4244);
    lemma_pstring(c, vcb.wrapping_add(44), encode_utf8(crate::startup::boot_volume_name()), 27, a);
}

proof fn lemma_file_block(b: BusView, fcbs: u32, vcb: u32, m: crate::vfs::VfsMetadata, len: u32, name: Seq<char>, a: u32)
    requires
        0x1000 <= a < fcbs,
        fcbs + 256 <= u32::MAX,
    ensures
        spared(b, file_block_written(b, fcbs, vcb, m, len, name), a),
{
    reveal(file_block_written);
    let fcb = fcbs.wrapping_add(crate::startup::APPLICATION_RESOURCE_REFNUM as u32);
    let c = b.filled(fcbs, crate::startup::HFS_FCB_BUFFER_SIZE as u32, 0).word(
        fcbs,
        crate::startup::HFS_FCB_BUFFER_SIZE,
    ).long(fcb, m.file_id).word(fcb.wrapping_add(4), 0x0200).long(fcb.wrapping_add(8), len).long(
        fcb.wrapping_add(12),
        len,
    ).long(fcb.wrapping_add(20), vcb).long(fcb.wrapping_add(50), m.file_type).long(
        fcb.wrapping_add(58),
        m.parent_dir_id,
    );
    assert(spared(b, c, a));
    lemma_pstring(c, fcb.wrapping_add(62), encode_utf8(name), 31, a);
}

proof fn lemma_file_opened(d: DispView, b: BusView, a: u32)
    requires
        0x1000 <= a < b.heap,
        b.heap + 1024 <= u32::MAX,
        b.mem.len() <= u32::MAX - 1024,
    ensures
        spared(b, d.file_opened(b).1, a),
        d.file_opened(b).0.screen == d.screen,
        d.file_opened(b).1.mem.len() == b.mem.len(),
{
    reveal(DispView::file_opened);
    if let Some(path) = d.launched_app_path {
        let vfs = d.files.vfs.with_metadata(path);
        let (vcb, b1) = b.allocated(crate::startup::HFS_VCB_SIZE);
        if vcb != 0 {
            lemma_volume(b1, vcb, d.files.default_dir_id, a);
            let b2 = volume_written(b1, vcb, d.files.default_dir_id);
            let (fcbs, b3) = b2.allocated(crate::startup::HFS_FCB_BUFFER_SIZE as u32);
            if fcbs != 0 {
                lemma_file_block(
                    b3,
                    fcbs,
                    vcb,
                    vfs.metadata[path],
                    vfs.resource_of(path).len() as u32,
                    crate::text::base_name(path),
                    a,
                );
            }
        }
    }
}

proof fn lemma_handle(b: BusView, bytes: Seq<u8>, a: u32)
    requires
        a < b.heap,
        bytes.len() <= u32::MAX,
    ensures
        spared(b, handle_made(b, bytes).2, a),
{
    reveal(handle_made);
}

proof fn lemma_device(b: BusView, gdevice: u32, a: u32)
    requires
        0x1000 <= a < b.heap,
        b.mem.len() <= u32::MAX - 1024,
        ({
            let sound = screen_base(b.ram_size()) + SCREEN_BYTES;
            a < sound || a >= sound + SOUND_BUFFER_BYTES
        }),
    ensures
        spared(b, device_made(b, gdevice).1, a),
{
    reveal(device_made);
    if gdevice == 0 {
        let base = screen_base(b.ram_size());
        let (gd, b1) = b.allocated(crate::screen::GDEVICE_SIZE);
        let (gdh, b2) = b1.allocated(4);
        let (pm, b3) = b2.allocated(crate::screen::PIXMAP_SIZE);
        let (pmh, b4) = b3.allocated(4);
        assert(spared(b, b4, a));
        assert(spared(b4, device_written(b4, gd, gdh, pm, pmh, base), a));
    }
}

proof fn lemma_equipped(d: DispView, b: BusView, a: u32)
    requires
        0x1000 <= a < b.heap,
        b.mem.len() <= u32::MAX - 1024,
        ({
            let sound = screen_base(b.ram_size()) + SCREEN_BYTES;
            a < sound || a >= sound + SOUND_BUFFER_BYTES
        }),
    ensures
        spared(b, d.equipped(b).1, a),
{
    reveal(DispView::equipped);
    let bytes = seq![0u8, 0u8, 0u8, 0u8];
    lemma_handle(b, bytes, a);
    let (resources, b1, handle) = d.resources.with_system_handle(b, bytes);
    let b2 = b1.long(crate::globals::APP_PARM_HANDLE, handle).word(crate::startup::EXIT_STUB, 0xA9F4);
    assert(spared(b, b2, a));
    lemma_device(b2, d.screen.gdevice, a);
    reveal(Screen::made);
}

proof fn lemma_plain_vector(b: BusView, vector: u32, trap: u16, a: u32)
    requires
        0x1000 <= a < b.heap,
        vector < 0xF00,
    ensures
        spared(b, with_plain_vector(b, vector, trap), a),
{
}

proof fn lemma_stack_vector(b: BusView, vector: u32, trap: u16, a: u32)
    requires
        0x1000 <= a < b.heap,
        vector < 0xF00,
    ensures
        spared(b, with_stack_vector(b, vector, trap), a),
{
}

proof fn lemma_vectors(b: BusView, a: u32)
    requires
        0x1000 <= a < b.heap,
    ensures
        spared(b, vectors_installed(b), a),
{
    reveal(vectors_installed);
    let b1 = with_plain_vector(b, crate::globals::SWAP_MMU_MODE_TRAP, 0xA05D);
    lemma_plain_vector(b, crate::globals::SWAP_MMU_MODE_TRAP, 0xA05D, a);
    let b2 = with_stack_vector(b1, crate::globals::J_HIDE_CURSOR, 0xA852);
    lemma_stack_vector(b1, crate::globals::J_HIDE_CURSOR, 0xA852, a);
    let b3 = with_plain_vector(b2, crate::globals::J_SHOW_CURSOR, 0xA853);
    lemma_plain_vector(b2, crate::globals::J_SHOW_CURSOR, 0xA853, a);
    let b4 = with_stack_vector(b3, crate::globals::J_SHIELD_CURSOR, 0xA855);
    lemma_stack_vector(b3, crate::globals::J_SHIELD_CURSOR, 0xA855, a);
    lemma_stack_vector(b4, crate::globals::J_SWAP_FONT, 0xA901, a);
}

/// Starting an application leaves the memory that the heap has handed out: every
/// byte below the next heap block, but for the globals in low memory, the header of
/// the heap zone, the bytes below the first stack address and the sound buffer.
pub proof fn lemma_start_spares_heap(s: RunnerView, app: AppView, a: u32)
    requires
        s.disp.key_map.len() == 16,
        s.bus.mem.len() <= u32::MAX - 1024,
        0x1000 <= a < s.bus.heap <= s.bus.mem.len(),
        app.zone_start() + APP_ZONE_HEADER_SIZE <= u32::MAX,
        more(heap_start(app.loaded_image_end), APP_ZONE_HEADER_SIZE) <= s.bus.heap,
        a < app.zone_start() || a >= app.zone_start() + APP_ZONE_HEADER_SIZE,
        a < less(app.initial_sp, STACK_SEED_BYTES) || a >= app.initial_sp,
        app.initial_sp >= 4,
        ({
            let sound = screen_base(s.bus.ram_size()) + SCREEN_BYTES;
            a < sound || a >= sound + SOUND_BUFFER_BYTES
        }),
    ensures
        s.initialized(app).bus.get_byte(a) == s.bus.get_byte(a),
        s.initialized(app).bus.mem.len() == s.bus.mem.len(),
{
    reveal(RunnerView::initialized);
    let b = globals_started(s.bus, app, s.launch_time(), s.disp.key_map);
    lemma_globals(s.bus, app, s.launch_time(), s.disp.key_map, a);
    assert(b.heap == s.bus.heap) by {
        reveal(globals_started);
    }
    reveal(DispView::started);
    let requested = s.application_partition_size;
    let b1 = zone_prepared(b, app, s.disp.launched_app_path, s.disp.files.default_dir_id, requested);
    lemma_zone(b, app, s.disp.launched_app_path, s.disp.files.default_dir_id, requested, a);
    assert(b1.heap == b.heap) by {
        reveal(zone_prepared);
        reveal(zone_opened);
        reveal(identified);
        reveal(zone_made);
    }
    lemma_file_opened(s.disp, b1, a);
    let (d, b2) = s.disp.file_opened(b1);
    lemma_equipped(d, b2, a);
    let b3 = d.equipped(b2).1;
    lemma_vectors(b3, a);
}

/// A resource that was loaded, with its bytes in memory between `floor` and the next
/// heap block.
spec fn placed(e: LoadedResource, r: ResourceView, b: BusView, floor: u32) -> bool {
    &&& e.res_type == r.res_type
    &&& e.id == r.id
    &&& e.size == r.data.len()
    &&& r.data.len() > 0 ==> floor <= e.ptr && e.ptr + r.data.len() <= b.heap
    &&& forall|k: int| 0 <= k < r.data.len() ==> b.get_byte((e.ptr + k) as u32) == #[trigger] r.data[k]
}

proof fn lemma_handle_placed(b: BusView, bytes: Seq<u8>)
    requires
        bytes.len() <= u32::MAX,
        b.heap >= 4,
    ensures
        ({
            let (handle, ptr, c) = handle_made(b, bytes);
            handle != 0 && bytes.len() > 0 ==> {
                &&& ptr == b.heap
                &&& ptr + bytes.len() <= c.heap
                &&& forall|k: int| 0 <= k < bytes.len() ==> c.get_byte((ptr + k) as u32) == #[trigger] bytes[k]
            }
        }),
{
    reveal(handle_made);
    reveal(crate::memory::set_bytes);
    if bytes.len() > 0 && b.has_room(bytes.len() as u32) {
        let p = b.heap;
        let c = b.allocated(bytes.len() as u32).1.bytes(p, bytes);
        assert forall|k: int| 0 <= k < bytes.len() implies c.get_byte((p + k) as u32) == #[trigger] bytes[k] by {
            assert(c.mem[p + k] == bytes[k]);
        }
        assert(p + bytes.len() <= c.heap);
        if c.has_room(4) {
            let d = c.allocated(4).1.long(c.heap, p);
            assert forall|k: int| 0 <= k < bytes.len() implies d.get_byte((p + k) as u32) == #[trigger] bytes[k] by {
                assert(crate::memory::apart(c.heap, 4, (p + k) as u32, 1));
                assert(byte_at(d.mem, (p + k) as u32) == byte_at(c.mem, (p + k) as u32));
            }
        }
    }
}

proof fn lemma_resources_placed(t: ResourceTable, b: BusView, rs: Seq<ResourceView>, n: nat, floor: u32, j: int)
    requires
        n <= rs.len(),
        4 <= floor <= b.heap,
        forall|i: int| 0 <= i < rs.len() ==> (#[trigger] rs[i]).data.len() <= u32::MAX,
        t.loaded.len() <= j < t.with_resources(b, rs, n).0.loaded.len(),
    ensures
        t.with_resources(b, rs, n).1.heap >= b.heap,
        exists|i: int| 0 <= i < n && #[trigger] placed(
            t.with_resources(b, rs, n).0.loaded[j],
            rs[i],
            t.with_resources(b, rs, n).1,
            floor,
        ),
    decreases n,
{
    if n > 0 {
        let m = (n - 1) as nat;
        let (u, c) = t.with_resources(b, rs, m);
        let r = rs[n - 1];
        lemma_resources_heap(t, b, rs, m);
        let (handle, ptr, d) = handle_made(c, r.data);
        let (v, e) = t.with_resources(b, rs, n);
        lemma_handle_placed(c, r.data);
        lemma_handle(c, r.data, 0);
        if j == u.loaded.len() {
            assert(placed(v.loaded[j], rs[n - 1], e, floor));
        } else {
            lemma_resources_placed(t, b, rs, m, floor, j);
            let i = choose|i: int| 0 <= i < m && #[trigger] placed(u.loaded[j], rs[i], c, floor);
            assert(v.loaded[j] == u.loaded[j]);
            assert forall|k: int| 0 <= k < rs[i].data.len() implies e.get_byte((u.loaded[j].ptr + k) as u32)
                == #[trigger] rs[i].data[k] by {
                lemma_handle(c, r.data, (u.loaded[j].ptr + k) as u32);
            }
            assert(placed(v.loaded[j], rs[i], e, floor));
        }
    }
}

proof fn lemma_resources_heap(t: ResourceTable, b: BusView, rs: Seq<ResourceView>, n: nat)
    requires
        n <= rs.len(),
        b.heap > 0,
        forall|i: int| 0 <= i < rs.len() ==> (#[trigger] rs[i]).data.len() <= u32::MAX,
    ensures
        t.with_resources(b, rs, n).1.heap >= b.heap,
        t.with_resources(b, rs, n).1.mem.len() == b.mem.len(),
    decreases n,
{
    if n > 0 {
        lemma_resources_heap(t, b, rs, (n - 1) as nat);
        let c = t.with_resources(b, rs, (n - 1) as nat).1;
        lemma_handle(c, rs[n - 1].data, 0);
    }
}

/// A resource that was loaded with an application is in memory when the application
/// begins: starting it does not touch the resource. The heap lies below the stack
/// and the sound buffer, as it does where RAM is large enough.
pub proof fn lemma_loaded_resource_survives_start(s: RunnerView, rs: Seq<ResourceView>, t: RunnerView, app: AppView, j: int)
    requires
        s.loaded(rs) == Some((t, app)),
        forall|i: int| 0 <= i < rs.len() ==> (#[trigger] rs[i]).data.len() <= u32::MAX,
        s.disp.resources.loaded.len() <= j < t.disp.resources.loaded.len(),
        s.disp.key_map.len() == 16,
        t.bus.mem.len() <= u32::MAX - 1024,
        heap_start(app.loaded_image_end) + APP_ZONE_HEADER_SIZE <= u32::MAX,
        t.bus.heap <= t.bus.mem.len(),
        t.bus.heap <= less(app.initial_sp, STACK_SEED_BYTES),
        t.bus.heap <= screen_base(t.bus.ram_size()) + SCREEN_BYTES,
    ensures
        ({
            let e = t.disp.resources.loaded[j];
            exists|i: int|
                {
                    &&& 0 <= i < rs.len()
                    &&& e.res_type == (#[trigger] rs[i]).res_type
                    &&& e.id == rs[i].id
                    &&& bytes_at(t.initialized(app).bus.mem, e.ptr, e.size as nat) == rs[i].data
                }
        }),
{
    reveal(RunnerView::loaded);
    let (b1, _) = crate::loader::app_loaded(s.bus, rs, s.config.load_address)->0;
    let floor = more(heap_start(app.loaded_image_end), APP_ZONE_HEADER_SIZE);
    let b2 = BusView { heap: crate::loader::larger(b1.heap, floor), ..b1 };
    lemma_resources_placed(s.disp.resources, b2, rs, rs.len(), floor, j);
    let e = t.disp.resources.loaded[j];
    let i = choose|i: int| 0 <= i < rs.len() && #[trigger] placed(e, rs[i], t.bus, floor);
    let after = t.initialized(app).bus.mem;
    assert forall|k: int| 0 <= k < rs[i].data.len() implies byte_at(after, e.ptr.wrapping_add(k as u32)) == rs[i].data[k] by {
        let a = (e.ptr + k) as u32;
        assert(t.bus.get_byte(a) == rs[i].data[k]);
        lemma_start_spares_heap(t, app, a);
    }
    assert(bytes_at(after, e.ptr, e.size as nat) =~= rs[i].data);
}

} // verus!

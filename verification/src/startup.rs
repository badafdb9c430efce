use std::collections::HashMap;

use vstd::prelude::*;
use vstd::string::*;
use vstd::utf8::encode_utf8;

use crate::cpu::{CpuView, Register};
use crate::file_manager::{FileView, OpenFileView};
use crate::globals::{
    APPL_LIMIT, APP_L_ZONE, APP_PARM_HANDLE, BUF_PTR, CURRENT_A5, CUR_APNAME, CUR_APREF_NUM, CUR_DIR_STORE, CUR_STACK_BASE,
    DEF_VCB_PTR, DOUBLE_TIME, FCB_S_PTR, FS_FCB_LEN, HEAP_END, J_CRSR_TASK, J_HIDE_CURSOR, J_SHIELD_CURSOR, J_SHOW_CURSOR,
    J_SWAP_FONT, KEY_MAP_LM, MBAR_HEIGHT, MB_STATE, MEM_TOP, MMU32_BIT, RND_SEED, ROM85, SD_VOLUME, SF_SAVE_DISK,
    SWAP_MMU_MODE_TRAP, SYS_ZONE, THE_ZONE, TICKS, TIME, VCB_Q_HDR,
};
use crate::interrupts::CURSOR_TASK_NOOP_ADDR;
use crate::loader::{
    app_heap_start_for_loaded_app, app_visible_zone_start_for_loaded_app, heap_start, larger, less, load_app_generic, more,
    AppView, LoadedApp,
};
use crate::memory::{group_memory_lengths, BusView, MacMemoryBus};
use crate::resource::{ResourceFork, ResourceView};
use crate::resource_manager::ResourceTable;
use crate::runner::{FixtureRunner, RunnerView, APP_STACK_SAFETY_MARGIN, APP_ZONE_HEADER_SIZE};
use crate::text::{base_name, normal_path, normalize_path, path_base_name};
use crate::trap::{DispView, TrapDispatcher};
use crate::vfs::VfsMetadata;

verus! {

broadcast use {group_memory_lengths, crate::trap::group_dispatcher_fields};

/// Ticks that have passed when an application is launched.
pub const DEFAULT_LAUNCH_TICKS: u32 = 600;
/// Ticks within which two clicks make a double click.
pub const DEFAULT_DOUBLE_TIME_TICKS: u32 = 20;
/// Reference number of the application's resource fork.
pub const APPLICATION_RESOURCE_REFNUM: u16 = 2;
/// Bytes of a file control block.
pub const HFS_FCB_SIZE: u16 = 94;
/// Bytes of the file control block buffer.
pub const HFS_FCB_BUFFER_SIZE: u16 = 96;
/// Bytes of a volume control block.
pub const HFS_VCB_SIZE: u32 = 178;
/// Reference number of the volume that the system started from.
pub const BOOT_VOLUME_REF_NUM: i16 = -1;
/// Where the instruction is to which an application's main program returns.
pub const EXIT_STUB: u32 = 0x0000_0100;
/// Bytes below the first stack address that are not zero at launch.
pub const STACK_SEED_BYTES: u32 = 0x8000;

/// Name of the volume that the system started from.
pub open spec fn boot_volume_name() -> Seq<char> {
    "Macintosh HD"@
}

/// Memory with a Pascal string at `ptr`: its length, at most `max`, and that
/// many bytes.
pub open spec fn with_pstring(b: BusView, ptr: u32, bytes: Seq<u8>, max: nat) -> BusView {
    let n = if bytes.len() < max { bytes.len() } else { max };
    b.byte(ptr, n as u8).bytes(ptr.wrapping_add(1), bytes.take(n as int))
}

/// Writes a Pascal string.
pub fn write_fixed_pstring(bus: &mut MacMemoryBus, ptr: u32, value: &str, max_len: u8)
    ensures
        final(bus)@ == with_pstring(old(bus)@, ptr, encode_utf8(value@), max_len as nat),
        old(bus).probe_wf() ==> final(bus).probe_wf(),
        final(bus)@.mem.len() == old(bus)@.mem.len(),
{
    let bytes: &[u8] = value.as_bytes();
    let n: usize = if bytes.len() < max_len as usize { bytes.len() } else { max_len as usize };
    let mut head: Vec<u8> = Vec::new();
    let mut i: usize = 0;
    while i < n
        invariant
            i <= n <= bytes@.len(),
            head@ == bytes@.take(i as int),
        decreases n - i,
    {
        head.push(bytes[i]);
        assert(bytes@.take(i as int + 1) =~= bytes@.take(i as int).push(bytes@[i as int]));
        i += 1;
    }
    bus.write_byte(ptr, n as u8);
    bus.write_bytes(ptr.wrapping_add(1), head.as_slice());
}

/// Memory with the globals that do not depend on the heap.
#[verifier::opaque]
pub open spec fn globals_started(b: BusView, app: AppView, time: u32, keys: Seq<u8>) -> BusView {
    b.long(MEM_TOP, b.ram_size()).long(CUR_STACK_BASE, app.image_start()).long(CURRENT_A5, app.a5_base).word(ROM85, 0).byte(
        MMU32_BIT,
        1,
    ).long(TICKS, DEFAULT_LAUNCH_TICKS).long(TIME, time).long(DOUBLE_TIME, DEFAULT_DOUBLE_TIME_TICKS).long(
        RND_SEED,
        time,
    ).byte(MB_STATE, 0x80).bytes(KEY_MAP_LM, keys).word(CURSOR_TASK_NOOP_ADDR, 0x4E75).long(
        J_CRSR_TASK,
        CURSOR_TASK_NOOP_ADDR,
    ).word(MBAR_HEIGHT, 20).byte(SD_VOLUME, 1)
}

fn start_globals(bus: &mut MacMemoryBus, app: &LoadedApp, time: u32, keys: &[u8; 16])
    ensures
        final(bus)@ == globals_started(old(bus)@, app@, time, keys@),
        old(bus).probe_wf() ==> final(bus).probe_wf(),
        final(bus)@.mem.len() == old(bus)@.mem.len(),
{
    proof {
        reveal(globals_started);
    }
    let ram: u32 = bus.ram_size();
    bus.write_long(MEM_TOP, ram);
    bus.write_long(CUR_STACK_BASE, app.a5_base.saturating_sub(app.code0_header.below_a5));
    bus.write_long(CURRENT_A5, app.a5_base);
    bus.write_word(ROM85, 0);
    bus.write_byte(MMU32_BIT, 1);
    bus.write_long(TICKS, DEFAULT_LAUNCH_TICKS);
    bus.write_long(TIME, time);
    bus.write_long(DOUBLE_TIME, DEFAULT_DOUBLE_TIME_TICKS);
    bus.write_long(RND_SEED, time);
    bus.write_byte(MB_STATE, 0x80);
    bus.write_bytes(KEY_MAP_LM, keys.as_slice());
    bus.write_word(CURSOR_TASK_NOOP_ADDR, 0x4E75);
    bus.write_long(J_CRSR_TASK, CURSOR_TASK_NOOP_ADDR);
    bus.write_word(MBAR_HEIGHT, 20);
    bus.write_byte(SD_VOLUME, 1);
}

/// The application's heap zone: where it begins for the application, where the
/// heap really begins, and up to where it may grow.
#[derive(Clone, Copy)]
pub struct ZonePlan {
    pub start: u32,
    pub heap_start: u32,
    pub limit: u32,
}

/// The memory that an application asks for: what was set, else what its size
/// resource prefers.
pub open spec fn partition_of(app: AppView, requested: Option<u32>) -> Option<u32> {
    match requested {
        Some(n) => Some(n),
        None => match app.size_resource {
            Some(s) => s.preferred(),
            None => None,
        },
    }
}

/// The heap limit that leaves the stack some room.
pub open spec fn default_limit(app: AppView) -> u32 {
    larger(less(app.initial_sp, APP_STACK_SAFETY_MARGIN), app.zone_start().wrapping_add(APP_ZONE_HEADER_SIZE))
}

/// The heap limit of an application while the heap has handed out memory up to
/// `heap`. A partition size narrows it, but not below what is in use.
pub open spec fn heap_limit(app: AppView, heap: u32, requested: Option<u32>) -> u32 {
    let start = app.zone_start();
    match partition_of(app, requested) {
        Some(size) if size >= APP_STACK_SAFETY_MARGIN && start + (size - APP_STACK_SAFETY_MARGIN) <= u32::MAX => {
            let limit = larger(
                (start + (size - APP_STACK_SAFETY_MARGIN)) as u32,
                larger(heap, heap_start(app.loaded_image_end)),
            );
            if limit > start.wrapping_add(APP_ZONE_HEADER_SIZE) && limit < less(app.initial_sp, APP_STACK_SAFETY_MARGIN) {
                limit
            } else {
                default_limit(app)
            }
        },
        _ => default_limit(app),
    }
}

/// The application's heap zone.
pub open spec fn zone_plan(app: AppView, heap: u32, requested: Option<u32>) -> ZonePlan {
    ZonePlan {
        start: app.zone_start(),
        heap_start: heap_start(app.loaded_image_end),
        limit: heap_limit(app, heap, requested),
    }
}

fn plan_zone(app: &LoadedApp, heap: u32, requested: Option<u32>) -> (r: ZonePlan)
    ensures
        r == zone_plan(app@, heap, requested),
{
    let heap_start: u32 = app_heap_start_for_loaded_app(app);
    let start: u32 = app_visible_zone_start_for_loaded_app(app);
    let first: u32 = start.wrapping_add(APP_ZONE_HEADER_SIZE);
    let highest: u32 = app.initial_sp.saturating_sub(APP_STACK_SAFETY_MARGIN);
    let partition: Option<u32> = match requested {
        Some(n) => Some(n),
        None => match &app.size_resource {
            Some(s) => s.preferred_partition_size(),
            None => None,
        },
    };
    let mut limit: u32 = if highest > first { highest } else { first };
    if let Some(size) = partition {
        if size >= APP_STACK_SAFETY_MARGIN {
            let end: u64 = start as u64 + (size - APP_STACK_SAFETY_MARGIN) as u64;
            if end <= u32::MAX as u64 {
                let safe: u32 = if heap > heap_start { heap } else { heap_start };
                let wanted: u32 = if end as u32 > safe { end as u32 } else { safe };
                if wanted > first && wanted < highest {
                    limit = wanted;
                }
            }
        }
    }
    ZonePlan { start, heap_start, limit }
}

/// Memory with the globals of the heap zone.
#[verifier::opaque]
pub open spec fn zone_opened(b: BusView, p: ZonePlan) -> BusView {
    b.long(SYS_ZONE, p.start).long(APP_L_ZONE, p.start).long(HEAP_END, p.start.wrapping_add(APP_ZONE_HEADER_SIZE)).long(
        APPL_LIMIT,
        p.limit,
    ).long(BUF_PTR, p.limit).long(THE_ZONE, p.start)
}

fn open_zone(bus: &mut MacMemoryBus, p: &ZonePlan)
    ensures
        final(bus)@ == zone_opened(old(bus)@, *p),
        old(bus).probe_wf() ==> final(bus).probe_wf(),
        final(bus)@.mem.len() == old(bus)@.mem.len(),
{
    proof {
        reveal(zone_opened);
    }
    bus.write_long(SYS_ZONE, p.start);
    bus.write_long(APP_L_ZONE, p.start);
    bus.write_long(HEAP_END, p.start.wrapping_add(APP_ZONE_HEADER_SIZE));
    bus.write_long(APPL_LIMIT, p.limit);
    bus.write_long(BUF_PTR, p.limit);
    bus.write_long(THE_ZONE, p.start);
}

/// Memory with the application's name, should it have one, and its folder.
#[verifier::opaque]
pub open spec fn identified(b: BusView, path: Option<Seq<char>>, dir_id: u32) -> BusView {
    let b1 = b.word(CUR_APREF_NUM, 0);
    let b2 = match path {
        Some(p) => with_pstring(b1, CUR_APNAME, encode_utf8(base_name(p)), 31),
        None => b1,
    };
    b2.long(CUR_DIR_STORE, dir_id).word(SF_SAVE_DISK, 1)
}

fn write_identity(bus: &mut MacMemoryBus, path: &Option<String>, dir_id: u32)
    ensures
        final(bus)@ == identified(
            old(bus)@,
            match *path {
                Some(p) => Some(p@),
                None => None,
            },
            dir_id,
        ),
        old(bus).probe_wf() ==> final(bus).probe_wf(),
        final(bus)@.mem.len() == old(bus)@.mem.len(),
{
    proof {
        reveal(identified);
    }
    bus.write_word(CUR_APREF_NUM, 0);
    if let Some(p) = path {
        let name: String = path_base_name(p.as_str());
        write_fixed_pstring(bus, CUR_APNAME, name.as_str(), 31);
    }
    bus.write_long(CUR_DIR_STORE, dir_id);
    bus.write_word(SF_SAVE_DISK, 1);
}

/// Memory with the stack as applications find it and the header of the heap
/// zone; the heap hands out memory behind that header.
#[verifier::opaque]
pub open spec fn zone_made(b: BusView, sp: u32, p: ZonePlan) -> BusView {
    let low = less(sp, STACK_SEED_BYTES);
    let b1 = b.filled(low, (sp - low) as u32, 0xA5);
    let floor = more(p.heap_start, APP_ZONE_HEADER_SIZE);
    let b2 = BusView { heap: larger(b1.heap, floor), ..b1 };
    let first = p.start.wrapping_add(APP_ZONE_HEADER_SIZE);
    b2.long(p.start, p.limit).long(p.start.wrapping_add(8), first).long(
        p.start.wrapping_add(12),
        less(less(p.limit, p.start), APP_ZONE_HEADER_SIZE),
    ).long(p.start.wrapping_add(56), first)
}

fn make_zone(bus: &mut MacMemoryBus, sp: u32, p: &ZonePlan)
    ensures
        final(bus)@ == zone_made(old(bus)@, sp, *p),
        old(bus).probe_wf() ==> final(bus).probe_wf(),
        final(bus)@.mem.len() == old(bus)@.mem.len(),
{
    proof {
        reveal(zone_made);
    }
    let low: u32 = sp.saturating_sub(STACK_SEED_BYTES);
    bus.fill_bytes(low, sp - low, 0xA5);
    bus.reserve_heap_until(p.heap_start.saturating_add(APP_ZONE_HEADER_SIZE));
    let first: u32 = p.start.wrapping_add(APP_ZONE_HEADER_SIZE);
    let free: u32 = p.limit.saturating_sub(p.start).saturating_sub(APP_ZONE_HEADER_SIZE);
    bus.write_long(p.start, p.limit);
    bus.write_long(p.start.wrapping_add(8), first);
    bus.write_long(p.start.wrapping_add(12), free);
    bus.write_long(p.start.wrapping_add(56), first);
}

/// Memory with the heap zone, the stack, and the application's name and folder.
#[verifier::opaque]
pub open spec fn zone_prepared(
    b: BusView,
    app: AppView,
    path: Option<Seq<char>>,
    dir_id: u32,
    requested: Option<u32>,
) -> BusView {
    let p = zone_plan(app, b.heap, requested);
    zone_made(identified(zone_opened(b, p), path, dir_id), app.initial_sp, p)
}

fn prepare_zone(bus: &mut MacMemoryBus, app: &LoadedApp, path: &Option<String>, dir_id: u32, requested: Option<u32>)
    ensures
        final(bus)@ == zone_prepared(
            old(bus)@,
            app@,
            match *path {
                Some(p) => Some(p@),
                None => None,
            },
            dir_id,
            requested,
        ),
        old(bus).probe_wf() ==> final(bus).probe_wf(),
        final(bus)@.mem.len() == old(bus)@.mem.len(),
{
    proof {
        reveal(zone_prepared);
    }
    let p: ZonePlan = plan_zone(app, bus.heap_bump_ptr(), requested);
    open_zone(bus, &p);
    write_identity(bus, path, dir_id);
    make_zone(bus, app.initial_sp, &p);
}

/// Memory with the control block of the start volume at `vcb`, and the globals
/// that lead to it.
#[verifier::opaque]
pub open spec fn volume_written(b: BusView, vcb: u32, dir_id: u32) -> BusView {
    with_pstring(
        b.filled(vcb, HFS_VCB_SIZE, 0).word(vcb.wrapping_add(8), 0x4244),
        vcb.wrapping_add(44),
        encode_utf8(boot_volume_name()),
        27,
    ).word(vcb.wrapping_add(78), BOOT_VOLUME_REF_NUM as u16).long(vcb.wrapping_add(172), dir_id).long(
        DEF_VCB_PTR,
        vcb,
    ).word(VCB_Q_HDR, 0).long((VCB_Q_HDR + 2) as u32, vcb).long((VCB_Q_HDR + 6) as u32, vcb)
}

fn write_volume(bus: &mut MacMemoryBus, vcb: u32, dir_id: u32)
    ensures
        final(bus)@ == volume_written(old(bus)@, vcb, dir_id),
        old(bus).probe_wf() ==> final(bus).probe_wf(),
        final(bus)@.mem.len() == old(bus)@.mem.len(),
{
    proof {
        reveal(volume_written);
    }
    bus.fill_bytes(vcb, HFS_VCB_SIZE, 0);
    bus.write_word(vcb.wrapping_add(8), 0x4244);
    write_fixed_pstring(bus, vcb.wrapping_add(44), "Macintosh HD", 27);
    bus.write_word(vcb.wrapping_add(78), BOOT_VOLUME_REF_NUM as u16);
    bus.write_long(vcb.wrapping_add(172), dir_id);
    bus.write_long(DEF_VCB_PTR, vcb);
    bus.write_word(VCB_Q_HDR, 0);
    bus.write_long(VCB_Q_HDR + 2, vcb);
    bus.write_long(VCB_Q_HDR + 6, vcb);
}

/// Memory with a file control block buffer at `fcbs` whose first block is that
/// of the application's resource fork, and the globals that lead to it.
#[verifier::opaque]
pub open spec fn file_block_written(
    b: BusView,
    fcbs: u32,
    vcb: u32,
    m: VfsMetadata,
    len: u32,
    name: Seq<char>,
) -> BusView {
    let fcb = fcbs.wrapping_add(APPLICATION_RESOURCE_REFNUM as u32);
    with_pstring(
        b.filled(fcbs, HFS_FCB_BUFFER_SIZE as u32, 0).word(fcbs, HFS_FCB_BUFFER_SIZE).long(fcb, m.file_id).word(
            fcb.wrapping_add(4),
            0x0200,
        ).long(fcb.wrapping_add(8), len).long(fcb.wrapping_add(12), len).long(fcb.wrapping_add(20), vcb).long(
            fcb.wrapping_add(50),
            m.file_type,
        ).long(fcb.wrapping_add(58), m.parent_dir_id),
        fcb.wrapping_add(62),
        encode_utf8(name),
        31,
    ).long(FCB_S_PTR, fcbs).word(FS_FCB_LEN, HFS_FCB_SIZE).word(CUR_APREF_NUM, APPLICATION_RESOURCE_REFNUM)
}

fn write_file_block(bus: &mut MacMemoryBus, fcbs: u32, vcb: u32, m: &VfsMetadata, len: u32, name: &str)
    ensures
        final(bus)@ == file_block_written(old(bus)@, fcbs, vcb, *m, len, name@),
        old(bus).probe_wf() ==> final(bus).probe_wf(),
        final(bus)@.mem.len() == old(bus)@.mem.len(),
{
    proof {
        reveal(file_block_written);
    }
    let fcb: u32 = fcbs.wrapping_add(APPLICATION_RESOURCE_REFNUM as u32);
    bus.fill_bytes(fcbs, HFS_FCB_BUFFER_SIZE as u32, 0);
    bus.write_word(fcbs, HFS_FCB_BUFFER_SIZE);
    bus.write_long(fcb, m.file_id);
    bus.write_word(fcb.wrapping_add(4), 0x0200);
    bus.write_long(fcb.wrapping_add(8), len);
    bus.write_long(fcb.wrapping_add(12), len);
    bus.write_long(fcb.wrapping_add(20), vcb);
    bus.write_long(fcb.wrapping_add(50), m.file_type);
    bus.write_long(fcb.wrapping_add(58), m.parent_dir_id);
    write_fixed_pstring(bus, fcb.wrapping_add(62), name, 31);
    bus.write_long(FCB_S_PTR, fcbs);
    bus.write_word(FS_FCB_LEN, HFS_FCB_SIZE);
    bus.write_word(CUR_APREF_NUM, APPLICATION_RESOURCE_REFNUM);
}

/// Memory with a stub that runs `trap` and returns, and `vector` leading to it.
pub open spec fn with_plain_vector(b: BusView, vector: u32, trap: u16) -> BusView {
    let (t, b1) = b.allocated(4);
    b1.word(t, trap).word(t.wrapping_add(2), 0x4E75).long(vector, t)
}

/// Memory with a stub that takes its return address off the stack, runs `trap`
/// and jumps back, and `vector` leading to it.
pub open spec fn with_stack_vector(b: BusView, vector: u32, trap: u16) -> BusView {
    let (t, b1) = b.allocated(6);
    b1.word(t, 0x205F).word(t.wrapping_add(2), trap).word(t.wrapping_add(4), 0x4ED0).long(vector, t)
}

/// Memory with the jump vectors that applications call directly.
#[verifier::opaque]
pub open spec fn vectors_installed(b: BusView) -> BusView {
    let b1 = with_plain_vector(b, SWAP_MMU_MODE_TRAP, 0xA05D);
    let b2 = with_stack_vector(b1, J_HIDE_CURSOR, 0xA852);
    let b3 = with_plain_vector(b2, J_SHOW_CURSOR, 0xA853);
    let b4 = with_stack_vector(b3, J_SHIELD_CURSOR, 0xA855);
    with_stack_vector(b4, J_SWAP_FONT, 0xA901)
}

fn install_plain_vector(bus: &mut MacMemoryBus, vector: u32, trap: u16)
    ensures
        final(bus)@ == with_plain_vector(old(bus)@, vector, trap),
        old(bus).probe_wf() ==> final(bus).probe_wf(),
        final(bus)@.mem.len() == old(bus)@.mem.len(),
{
    let t: u32 = bus.allocate(4);
    bus.write_word(t, trap);
    bus.write_word(t.wrapping_add(2), 0x4E75);
    bus.write_long(vector, t);
}

fn install_stack_vector(bus: &mut MacMemoryBus, vector: u32, trap: u16)
    ensures
        final(bus)@ == with_stack_vector(old(bus)@, vector, trap),
        old(bus).probe_wf() ==> final(bus).probe_wf(),
        final(bus)@.mem.len() == old(bus)@.mem.len(),
{
    let t: u32 = bus.allocate(6);
    bus.write_word(t, 0x205F);
    bus.write_word(t.wrapping_add(2), trap);
    bus.write_word(t.wrapping_add(4), 0x4ED0);
    bus.write_long(vector, t);
}

fn install_vectors(bus: &mut MacMemoryBus)
    ensures
        final(bus)@ == vectors_installed(old(bus)@),
        old(bus).probe_wf() ==> final(bus).probe_wf(),
        final(bus)@.mem.len() == old(bus)@.mem.len(),
{
    proof {
        reveal(vectors_installed);
    }
    install_plain_vector(bus, SWAP_MMU_MODE_TRAP, 0xA05D);
    install_stack_vector(bus, J_HIDE_CURSOR, 0xA852);
    install_plain_vector(bus, J_SHOW_CURSOR, 0xA853);
    install_stack_vector(bus, J_SHIELD_CURSOR, 0xA855);
    install_stack_vector(bus, J_SWAP_FONT, 0xA901);
}

impl DispView {
    /// The state after the application's resource fork was opened under its
    /// reference number, and memory with the blocks that describe it. Without an
    /// application file nothing happens; without room it stops half way.
    #[verifier::opaque]
    pub open spec fn file_opened(self, b: BusView) -> (DispView, BusView) {
        match self.launched_app_path {
            None => (self, b),
            Some(path) => {
                let vfs = self.files.vfs.with_metadata(path);
                let noted = DispView { files: FileView { vfs, ..self.files }, ..self };
                let (vcb, b1) = b.allocated(HFS_VCB_SIZE);
                if vcb == 0 {
                    (noted, b1)
                } else {
                    let b2 = volume_written(b1, vcb, self.files.default_dir_id);
                    let (fcbs, b3) = b2.allocated(HFS_FCB_BUFFER_SIZE as u32);
                    if fcbs == 0 {
                        (noted, b3)
                    } else {
                        (
                            DispView {
                                files: FileView {
                                    open_files: self.files.open_files.push(
                                        OpenFileView {
                                            refnum: APPLICATION_RESOURCE_REFNUM,
                                            path: crate::vfs::resource_mark() + path,
                                            position: 0,
                                        },
                                    ),
                                    ..noted.files
                                },
                                ..self
                            },
                            file_block_written(
                                b3,
                                fcbs,
                                vcb,
                                vfs.metadata[path],
                                vfs.resource_of(path).len() as u32,
                                base_name(path),
                            ),
                        )
                    }
                }
            },
        }
    }

    /// The state with the launch information and the screen in place, and memory
    /// with both.
    #[verifier::opaque]
    pub open spec fn equipped(self, b: BusView) -> (DispView, BusView) {
        let (resources, b1, handle) = self.resources.with_system_handle(b, seq![0u8, 0u8, 0u8, 0u8]);
        let b2 = b1.long(APP_PARM_HANDLE, handle).word(EXIT_STUB, 0xA9F4);
        let (screen, b3) = self.screen.made(b2);
        (DispView { tick_count: DEFAULT_LAUNCH_TICKS, resources, screen, ..self }, b3)
    }

    /// The state when an application is about to run, and memory as it finds it.
    #[verifier::opaque]
    pub open spec fn started(self, b: BusView, app: AppView, requested: Option<u32>) -> (DispView, BusView) {
        let b1 = zone_prepared(b, app, self.launched_app_path, self.files.default_dir_id, requested);
        let (d, b2) = self.file_opened(b1);
        let (d2, b3) = d.equipped(b2);
        (d2, vectors_installed(b3).long(app.initial_sp.wrapping_sub(4), EXIT_STUB))
    }

    /// The state when the application at `path` is the one that was launched.
    pub open spec fn launched_from(self, path: Seq<char>) -> DispView {
        let p = normal_path(path);
        DispView { launched_app_path: Some(p), files: self.files.in_folder_of(p), ..self }
    }
}

fn resource_path(path: &str) -> (r: String)
    ensures
        r@ == crate::vfs::resource_mark() + path@,
{
    let mut s: String = String::new();
    assert(s@ =~= Seq::<char>::empty());
    s.append("__rsrc__");
    s.append(path);
    assert(s@ =~= crate::vfs::resource_mark() + path@);
    s
}

impl TrapDispatcher {
    /// Notes which application was launched; names are looked up in its folder.
    pub fn set_launched_app_path(&mut self, path: &str)
        requires
            old(self).wf(),
        ensures
            final(self).wf(),
            final(self)@ == old(self)@.launched_from(path@),
    {
        proof {
            reveal(TrapDispatcher::view);
        }
        let p: String = normalize_path(path);
        self.files.enter_folder_of(p.as_str());
        self.launched_app_path = Some(p);
    }

    fn seed_current_application_file_manager_state(&mut self, bus: &mut MacMemoryBus)
        requires
            old(self).wf(),
        ensures
            final(self).wf(),
            (final(self)@, final(bus)@) == old(self)@.file_opened(old(bus)@),
            old(bus).probe_wf() ==> final(bus).probe_wf(),
            final(bus)@.mem.len() == old(bus)@.mem.len(),
    {
        proof {
            reveal(TrapDispatcher::view);
            reveal(DispView::file_opened);
        }
        let path: String = match &self.launched_app_path {
            Some(p) => p.clone(),
            None => return,
        };
        let m: VfsMetadata = self.files.describe(path.as_str());
        let len: u32 = self.files.resource_length(path.as_str());
        let vcb: u32 = bus.allocate(HFS_VCB_SIZE);
        if vcb == 0 {
            return;
        }
        write_volume(bus, vcb, self.files.default_dir());
        let fcbs: u32 = bus.allocate(HFS_FCB_BUFFER_SIZE as u32);
        if fcbs == 0 {
            return;
        }
        let name: String = path_base_name(path.as_str());
        write_file_block(bus, fcbs, vcb, &m, len, name.as_str());
        self.files.open(APPLICATION_RESOURCE_REFNUM, resource_path(path.as_str()));
    }

    fn equip_application(&mut self, bus: &mut MacMemoryBus)
        ensures
            old(self).wf() ==> final(self).wf(),
            (final(self)@, final(bus)@) == old(self)@.equipped(old(bus)@),
            old(bus).probe_wf() ==> final(bus).probe_wf(),
            final(bus)@.mem.len() == old(bus)@.mem.len(),
    {
        proof {
            reveal(TrapDispatcher::view);
            reveal(DispView::equipped);
        }
        let none: [u8; 4] = [0, 0, 0, 0];
        assert(none@ =~= seq![0u8, 0u8, 0u8, 0u8]);
        let handle: u32 = self.resources.new_system_handle(bus, none.as_slice());
        bus.write_long(APP_PARM_HANDLE, handle);
        bus.write_word(EXIT_STUB, 0xA9F4);
        self.screen.set_up(bus);
        self.tick_count = DEFAULT_LAUNCH_TICKS;
    }

    fn prepare_application_zone(&self, bus: &mut MacMemoryBus, app: &LoadedApp, requested: Option<u32>)
        ensures
            final(bus)@ == zone_prepared(
                old(bus)@,
                app@,
                self@.launched_app_path,
                self@.files.default_dir_id,
                requested,
            ),
            old(bus).probe_wf() ==> final(bus).probe_wf(),
            final(bus)@.mem.len() == old(bus)@.mem.len(),
    {
        proof {
            reveal(TrapDispatcher::view);
        }
        prepare_zone(bus, app, &self.launched_app_path, self.files.default_dir(), requested);
    }

    /// Makes memory what an application finds when it begins.
    pub fn start_application(&mut self, bus: &mut MacMemoryBus, app: &LoadedApp, requested: Option<u32>)
        requires
            old(self).wf(),
        ensures
            final(self).wf(),
            (final(self)@, final(bus)@) == old(self)@.started(old(bus)@, app@, requested),
            old(bus).probe_wf() ==> final(bus).probe_wf(),
            final(bus)@.mem.len() == old(bus)@.mem.len(),
    {
        proof {
            reveal(DispView::started);
        }
        self.prepare_application_zone(bus, app, requested);
        self.seed_current_application_file_manager_state(bus);
        self.equip_application(bus);
        install_vectors(bus);
        bus.write_long(app.initial_sp.wrapping_sub(4), EXIT_STUB);
    }

    /// Loads the resources of a fork and notes where the segments are.
    pub fn load_application(&mut self, bus: &mut MacMemoryBus, fork: &ResourceFork, segments: &HashMap<i16, u32>)
        requires
            forall|k: int| 0 <= k < fork@.len() ==> (#[trigger] fork@[k]).data.len() <= u32::MAX,
        ensures
            ({
                let (t, b) = old(self)@.resources.with_resources(old(bus)@, fork@, fork@.len());
                &&& final(bus)@ == b
                &&& final(self)@ == (DispView {
                    resources: ResourceTable { segments: segments@, ..t },
                    ..old(self)@
                })
            }),
            old(self).wf() ==> final(self).wf(),
            old(bus).probe_wf() ==> final(bus).probe_wf(),
            final(bus)@.mem.len() == old(bus)@.mem.len(),
    {
        proof {
            reveal(TrapDispatcher::view);
        }
        self.resources.load_resources(bus, fork);
        self.resources.register_segments(segments);
    }

    /// Loads the resources of a fork that are not there yet, and counts them.
    pub fn merge_resources(&mut self, bus: &mut MacMemoryBus, fork: &ResourceFork) -> (r: usize)
        requires
            forall|k: int| 0 <= k < fork@.len() ==> (#[trigger] fork@[k]).data.len() <= u32::MAX,
        ensures
            ({
                let (t, b, n) = old(self)@.resources.merged(old(bus)@, fork@, fork@.len());
                &&& final(bus)@ == b
                &&& final(self)@ == (DispView { resources: t, ..old(self)@ })
                &&& r == n
            }),
            old(self).wf() ==> final(self).wf(),
            old(bus).probe_wf() ==> final(bus).probe_wf(),
            final(bus)@.mem.len() == old(bus)@.mem.len(),
    {
        proof {
            reveal(TrapDispatcher::view);
        }
        self.resources.merge_resources(bus, fork)
    }
}

impl RunnerView {
    /// The state with an application loaded, and the application; `None` where
    /// the resources are not those of an application.
    #[verifier::opaque]
    pub open spec fn loaded(self, rs: Seq<ResourceView>) -> Option<(RunnerView, AppView)> {
        match crate::loader::app_loaded(self.bus, rs, self.config.load_address) {
            Some((b1, app)) => {
                let floor = more(heap_start(app.loaded_image_end), APP_ZONE_HEADER_SIZE);
                let b2 = BusView { heap: larger(b1.heap, floor), ..b1 };
                let (t, b3) = self.disp.resources.with_resources(b2, rs, rs.len());
                let disp = DispView { resources: ResourceTable { segments: app.segment_bases, ..t }, ..self.disp };
                Some((RunnerView { bus: b3, disp, ..self }, app))
            },
            None => None,
        }
    }

    /// The guest time at launch: what was set, else the host's.
    pub open spec fn launch_time(self) -> u32 {
        match self.app_start_time {
            Some(t) => t,
            None => self.host_clock,
        }
    }

    /// The state when a loaded application is about to run.
    #[verifier::opaque]
    pub open spec fn initialized(self, app: AppView) -> RunnerView {
        let b = globals_started(self.bus, app, self.launch_time(), self.disp.key_map);
        let (disp, bus) = self.disp.started(b, app, self.application_partition_size);
        RunnerView { cpu: launched_cpu(self.cpu, app), bus, disp, ..self }
    }
}

/// The registers when an application begins: supervisor mode, no interrupt
/// masked.
pub open spec fn launched_cpu(c: CpuView, app: AppView) -> CpuView {
    let sp = app.initial_sp.wrapping_sub(4);
    c.with_status((c.sr & 0xF8FF) | 0x2000).with(Register::A5, app.a5_base).with(Register::A7, sp).with(
        Register::A6,
        sp,
    ).with(Register::PC, app.entry())
}

impl FixtureRunner {
    /// Tells the runner the host's clock, in seconds since midnight, January 1,
    /// 1904.
    pub fn set_host_clock(&mut self, secs: u32)
        ensures
            final(self)@ == (RunnerView { host_clock: secs, ..old(self)@ }),
            old(self).wf() ==> final(self).wf(),
    {
        self.host_clock = secs;
    }

    /// Loads an application's code, globals and resources.
    pub fn load_app(&mut self, fork: &ResourceFork) -> (r: Option<LoadedApp>)
        requires
            old(self).wf(),
            forall|k: int| 0 <= k < fork@.len() ==> (#[trigger] fork@[k]).data.len() <= u32::MAX,
        ensures
            final(self).wf(),
            r is Some <==> old(self)@.loaded(fork@) is Some,
            r is None ==> final(self)@ == old(self)@,
            r matches Some(app) ==> (final(self)@, app@) == old(self)@.loaded(fork@)->0,
    {
        proof {
            reveal(RunnerView::loaded);
        }
        let app: LoadedApp = match load_app_generic(fork, &mut self.bus, self.config.load_address) {
            Some(a) => a,
            None => return None,
        };
        let floor: u32 = app_heap_start_for_loaded_app(&app);
        self.bus.reserve_heap_until(floor.saturating_add(APP_ZONE_HEADER_SIZE));
        self.dispatcher.load_application(&mut self.bus, fork, &app.segment_bases);
        Some(app)
    }

    /// Adds the resources of a fork that the application does not have itself,
    /// and counts them.
    pub fn merge_resources_into_application(&mut self, fork: &ResourceFork) -> (r: usize)
        requires
            old(self).wf(),
            forall|k: int| 0 <= k < fork@.len() ==> (#[trigger] fork@[k]).data.len() <= u32::MAX,
        ensures
            final(self).wf(),
            ({
                let (t, b, n) = old(self)@.disp.resources.merged(old(self)@.bus, fork@, fork@.len());
                &&& final(self)@ == (RunnerView { bus: b, disp: DispView { resources: t, ..old(self)@.disp }, ..old(self)@ })
                &&& r == n
            }),
    {
        self.dispatcher.merge_resources(&mut self.bus, fork)
    }

    /// Makes a loaded application ready to run: low memory, its heap zone, its
    /// stack, the screen, the registers.
    pub fn init_app(&mut self, app: &LoadedApp)
        requires
            old(self).wf(),
        ensures
            final(self).wf(),
            final(self)@ == old(self)@.initialized(app@),
    {
        proof {
            reveal(RunnerView::initialized);
        }
        let sr: u16 = self.cpu.get_sr();
        self.cpu.set_sr_noint_nosp((sr & 0xF8FF) | 0x2000);
        let time: u32 = match self.app_start_time {
            Some(t) => t,
            None => self.host_clock,
        };
        let keys: [u8; 16] = self.dispatcher.keys();
        start_globals(&mut self.bus, app, time, &keys);
        self.dispatcher.start_application(&mut self.bus, app, self.application_partition_size);
        let sp: u32 = app.initial_sp.wrapping_sub(4);
        self.cpu.write_reg(Register::A5, app.a5_base);
        self.cpu.write_reg(Register::A7, sp);
        self.cpu.write_reg(Register::A6, sp);
        self.cpu.write_reg(Register::PC, app.entry_point());
    }
}

} // verus!

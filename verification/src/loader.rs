use std::collections::HashMap;

use vstd::prelude::*;

use crate::globals::{CURRENT_A5, CUR_JT_OFFSET, ROM85};
use crate::memory::{group_memory_lengths, BusView, MacMemoryBus};
use crate::resource::{
    be16, be32, read_be16, read_be32, resource_at, Resource, ResourceFork, ResourceView, CODE_TYPE, DATA_TYPE, SIZE_TYPE,
};
use crate::runner::{APP_HEAP_FLOOR, APP_STACK_SAFETY_MARGIN, APP_ZONE_HEADER_SIZE, DEFAULT_LOAD_ADDRESS};

verus! {

broadcast use {group_memory_lengths, vstd::std_specs::hash::group_hash_axioms};

/// Applications that need more than this much memory are loaded high.
pub const LARGE_SIZE_RELOCATION_MINIMUM: u32 = 0x0020_0000;
/// Room behind the application's globals for those of QuickDraw.
pub const QD_GLOBALS_RESERVE: u32 = 0xC000;
/// Room behind that which is cleared too.
pub const CLEARED_BEHIND_GLOBALS: u32 = 0x0004_0000;
/// Room that a high load address leaves at the top of RAM.
pub const TOP_RESERVE: u32 = 0x0020_0000;
/// Bytes between the first stack address and the end of RAM.
pub const STACK_TOP_GAP: u32 = 16;
/// Where a far segment keeps the value of A5.
pub const MPW_CURRENT_A5_OFFSET: u32 = 24;
/// Where a far segment keeps its own address.
pub const MPW_LOAD_ADDRESS_OFFSET: u32 = 32;
/// Bytes of a far segment's header.
pub const MPW_FAR_HEADER_SIZE: usize = 40;

/// What code segment 0 says about an application.
#[derive(Clone, Copy, Debug, PartialEq, Eq)]
pub struct Code0Header {
    /// Bytes above A5.
    pub above_a5: u32,
    /// Bytes below A5.
    pub below_a5: u32,
    pub jump_table_size: u32,
    /// Where the jump table stands, from A5.
    pub jump_table_offset: u32,
}

/// An entry of the jump table.
#[derive(Clone, Copy, Debug, PartialEq, Eq)]
pub struct JumpTableEntry {
    pub offset: u16,
    pub segment: i16,
    pub loaded: bool,
    pub address: u32,
}

/// How much memory an application asks for.
#[derive(Clone, Copy, Debug, PartialEq, Eq)]
pub struct ApplicationSizeResource {
    pub flags: u16,
    pub preferred_size: u32,
    pub minimum_size: u32,
}

/// What a code segment says about its jump table entries.
#[derive(Clone, Copy, Debug, PartialEq, Eq)]
pub enum CodeSegmentHeader {
    /// Entries from a byte offset on.
    Near { table_offset: u32, entry_count: u32 },
    /// Entries from an index on.
    ThinkFar { has_relocations: bool, first_entry_index: u32, entry_count: u32 },
    /// Entries in code segment 0; the segment is relocated.
    MpwFar,
}

/// An application in memory.
pub struct LoadedApp {
    pub code0_header: Code0Header,
    pub a5_base: u32,
    pub jump_table: Vec<JumpTableEntry>,
    /// Segment numbers and where the segments are.
    pub segment_bases: HashMap<i16, u32>,
    pub loaded_image_end: u32,
    pub initial_sp: u32,
    pub size_resource: Option<ApplicationSizeResource>,
}

/// An application in memory as a mathematical value.
pub struct AppView {
    pub code0_header: Code0Header,
    pub a5_base: u32,
    pub jump_table: Seq<JumpTableEntry>,
    pub segment_bases: Map<i16, u32>,
    pub loaded_image_end: u32,
    pub initial_sp: u32,
    pub size_resource: Option<ApplicationSizeResource>,
}

impl AppView {
    /// Where the application begins: in the first jump table entry, behind its
    /// first word.
    pub open spec fn entry(self) -> u32 {
        self.a5_base.wrapping_add(self.code0_header.jump_table_offset).wrapping_add(2)
    }
}

impl LoadedApp {
    pub open spec fn view(&self) -> AppView {
        AppView {
            code0_header: self.code0_header,
            a5_base: self.a5_base,
            jump_table: self.jump_table@,
            segment_bases: self.segment_bases@,
            loaded_image_end: self.loaded_image_end,
            initial_sp: self.initial_sp,
            size_resource: self.size_resource,
        }
    }

    /// Where the application begins.
    pub fn entry_point(&self) -> (r: u32)
        ensures
            r == self@.entry(),
    {
        self.a5_base.wrapping_add(self.code0_header.jump_table_offset).wrapping_add(2)
    }
}

/// What the bytes of code segment 0 say.
pub open spec fn code0_header(s: Seq<u8>) -> Option<Code0Header> {
    if s.len() < 16 {
        None
    } else {
        Some(
            Code0Header {
                above_a5: be32(s, 0),
                below_a5: be32(s, 4),
                jump_table_size: be32(s, 8),
                jump_table_offset: be32(s, 12),
            },
        )
    }
}

impl Code0Header {
    /// Reads the bytes of code segment 0.
    pub fn parse(data: &Vec<u8>) -> (r: Option<Self>)
        ensures
            r == code0_header(data@),
    {
        if data.len() < 16 {
            None
        } else {
            Some(
                Code0Header {
                    above_a5: read_be32(data, 0),
                    below_a5: read_be32(data, 4),
                    jump_table_size: read_be32(data, 8),
                    jump_table_offset: read_be32(data, 12),
                },
            )
        }
    }
}

/// What the bytes of a `SIZE` resource say.
pub open spec fn size_resource(s: Seq<u8>) -> Option<ApplicationSizeResource> {
    if s.len() < 10 {
        None
    } else {
        Some(
            ApplicationSizeResource { flags: be16(s, 0), preferred_size: be32(s, 2), minimum_size: be32(s, 6) },
        )
    }
}

impl ApplicationSizeResource {
    /// Reads the bytes of a `SIZE` resource.
    pub fn parse(data: &Vec<u8>) -> (r: Option<Self>)
        ensures
            r == size_resource(data@),
    {
        if data.len() < 10 {
            None
        } else {
            Some(
                ApplicationSizeResource {
                    flags: read_be16(data, 0),
                    preferred_size: read_be32(data, 2),
                    minimum_size: read_be32(data, 6),
                },
            )
        }
    }

    /// The preferred size, should one be given.
    pub open spec fn preferred(self) -> Option<u32> {
        if self.preferred_size == 0 {
            None
        } else {
            Some(self.preferred_size)
        }
    }

    /// The preferred size, should one be given.
    pub fn preferred_partition_size(&self) -> (r: Option<u32>)
        ensures
            r == self.preferred(),
    {
        if self.preferred_size == 0 {
            None
        } else {
            Some(self.preferred_size)
        }
    }
}

/// What the bytes of a code segment say about its jump table entries.
pub open spec fn segment_header(s: Seq<u8>) -> Option<CodeSegmentHeader> {
    if s.len() < 4 {
        None
    } else if be16(s, 0) == 0xFFFF {
        Some(CodeSegmentHeader::MpwFar)
    } else if be16(s, 0) >= 0x8000 {
        Some(
            CodeSegmentHeader::ThinkFar {
                has_relocations: be16(s, 2) >= 0x8000,
                first_entry_index: (be16(s, 0) - 0x8000) as u32,
                entry_count: (be16(s, 2) % 0x8000) as u32,
            },
        )
    } else {
        Some(CodeSegmentHeader::Near { table_offset: be16(s, 0) as u32, entry_count: be16(s, 2) as u32 })
    }
}

impl CodeSegmentHeader {
    /// Reads the bytes of a code segment.
    pub fn parse(data: &Vec<u8>) -> (r: Option<Self>)
        ensures
            r == segment_header(data@),
    {
        if data.len() < 4 {
            return None;
        }
        let first: u16 = read_be16(data, 0);
        let second: u16 = read_be16(data, 2);
        if first == 0xFFFF {
            Some(CodeSegmentHeader::MpwFar)
        } else if first >= 0x8000 {
            Some(
                CodeSegmentHeader::ThinkFar {
                    has_relocations: second >= 0x8000,
                    first_entry_index: (first - 0x8000) as u32,
                    entry_count: (second % 0x8000) as u32,
                },
            )
        } else {
            Some(CodeSegmentHeader::Near { table_offset: first as u32, entry_count: second as u32 })
        }
    }

    /// The segment's own entries: the byte offset of the first in the jump
    /// table, and their number.
    pub open spec fn own_entries(self) -> Option<(u32, u32)> {
        match self {
            CodeSegmentHeader::Near { table_offset, entry_count } => Some((table_offset, entry_count)),
            CodeSegmentHeader::ThinkFar { first_entry_index, entry_count, .. } => Some(
                (first_entry_index.wrapping_mul(8), entry_count),
            ),
            CodeSegmentHeader::MpwFar => None,
        }
    }

    /// The segment's own entries.
    pub fn jump_table_entries(&self) -> (r: Option<(u32, u32)>)
        ensures
            r == self.own_entries(),
    {
        match *self {
            CodeSegmentHeader::Near { table_offset, entry_count } => Some((table_offset, entry_count)),
            CodeSegmentHeader::ThinkFar { first_entry_index, entry_count, .. } => Some(
                (first_entry_index.wrapping_mul(8), entry_count),
            ),
            CodeSegmentHeader::MpwFar => None,
        }
    }
}

/// The places that a stream of relocations names, from position `at` on, the
/// last place being `pos`: one byte or two, or a zero and four bytes, give the
/// distance to the next place in words; two zeros end the stream.
pub open spec fn relocations(s: Seq<u8>, at: int, pos: u32) -> Option<Seq<u32>>
    decreases s.len() - at,
{
    if at < 0 || at >= s.len() {
        None
    } else {
        let b = s[at];
        if b == 0 && at + 1 < s.len() && s[at + 1] == 0 {
            Some(Seq::empty())
        } else {
            let size: int = if b == 0 {
                5
            } else if b < 0x80 {
                1
            } else {
                2
            };
            if at + size > s.len() {
                None
            } else {
                let words: u32 = if b == 0 {
                    be32(s, at + 1)
                } else if b < 0x80 {
                    b as u32
                } else {
                    ((b - 0x80) * 256 + s[at + 1]) as u32
                };
                let next = pos.wrapping_add(words.wrapping_mul(2));
                match relocations(s, at + size, next) {
                    Some(rest) => Some(seq![next] + rest),
                    None => None,
                }
            }
        }
    }
}

/// The places that a far segment's stream at `offset` names. Without a stream,
/// or with one that does not end, there are none.
pub open spec fn relocation_places(s: Seq<u8>, offset: u32) -> Seq<u32> {
    if offset == 0 || relocations(s, offset as int, 0) is None {
        Seq::empty()
    } else {
        relocations(s, offset as int, 0)->0
    }
}

fn read_relocations(s: &Vec<u8>, offset: u32) -> (r: Vec<u32>)
    ensures
        r@ == relocation_places(s@, offset),
{
    let mut out: Vec<u32> = Vec::new();
    if offset == 0 || offset as usize >= s.len() {
        assert(out@ =~= relocation_places(s@, offset));
        return out;
    }
    let mut at: usize = offset as usize;
    let mut pos: u32 = 0;
    assert(relocations(s@, offset as int, 0) is Some ==> relocations(s@, offset as int, 0)->0 =~= out@ + relocations(
        s@,
        offset as int,
        0,
    )->0);
    while at < s.len()
        invariant
            at <= s@.len() <= usize::MAX,
            offset != 0,
            relocations(s@, offset as int, 0) is Some <==> relocations(s@, at as int, pos) is Some,
            relocations(s@, offset as int, 0) is Some ==> relocations(s@, offset as int, 0)->0 == out@ + relocations(
                s@,
                at as int,
                pos,
            )->0,
        decreases s.len() - at,
    {
        let b: u8 = s[at];
        if b == 0 && at + 1 < s.len() && s[at + 1] == 0 {
            assert(out@ =~= relocation_places(s@, offset));
            return out;
        }
        let size: usize = if b == 0 {
            5
        } else if b < 0x80 {
            1
        } else {
            2
        };
        if s.len() - at < size {
            let none: Vec<u32> = Vec::new();
            assert(none@ =~= relocation_places(s@, offset));
            return none;
        }
        let words: u32 = if b == 0 {
            read_be32(s, at + 1)
        } else if b < 0x80 {
            b as u32
        } else {
            (b - 0x80) as u32 * 256 + s[at + 1] as u32
        };
        let ghost before = pos;
        let ghost had = out@;
        pos = pos.wrapping_add(words.wrapping_mul(2));
        out.push(pos);
        proof {
            if relocations(s@, offset as int, 0) is Some {
                let rest = relocations(s@, at + size, pos)->0;
                assert(relocations(s@, at as int, before)->0 == seq![pos] + rest);
                assert(had + (seq![pos] + rest) =~= out@ + rest);
            }
        }
        at = at + size;
    }
    let none: Vec<u32> = Vec::new();
    assert(none@ =~= relocation_places(s@, offset));
    none
}

/// Memory with `base` added to the longs at the first `n` places of a segment.
pub open spec fn relocated(b: BusView, segment: u32, places: Seq<u32>, n: nat, base: u32) -> BusView
    decreases n,
{
    if n == 0 {
        b
    } else {
        let before = relocated(b, segment, places, (n - 1) as nat, base);
        let at = segment.wrapping_add(places[n - 1]);
        before.long(at, before.get_long(at).wrapping_add(base))
    }
}

/// Memory with a far segment relocated: longs that depend on A5, then longs
/// that depend on the segment's address; both are noted in its header.
pub open spec fn far_relocated(b: BusView, s: Seq<u8>, segment: u32, a5: u32) -> BusView {
    if s.len() < MPW_FAR_HEADER_SIZE {
        b
    } else {
        let a5_places = relocation_places(s, be32(s, 20));
        let pc_places = relocation_places(s, be32(s, 28));
        let b = relocated(b, segment, a5_places, a5_places.len(), a5);
        let b = relocated(b, segment, pc_places, pc_places.len(), segment);
        b.long(segment.wrapping_add(MPW_CURRENT_A5_OFFSET), a5).long(
            segment.wrapping_add(MPW_LOAD_ADDRESS_OFFSET),
            segment,
        )
    }
}

fn relocate(bus: &mut MacMemoryBus, segment: u32, places: &Vec<u32>, base: u32)
    ensures
        final(bus)@ == relocated(old(bus)@, segment, places@, places@.len(), base),
        old(bus).probe_wf() ==> final(bus).probe_wf(),
        final(bus)@.mem.len() == old(bus)@.mem.len(),
{
    let mut i: usize = 0;
    while i < places.len()
        invariant
            i <= places.len(),
            bus@ == relocated(old(bus)@, segment, places@, i as nat, base),
            old(bus).probe_wf() ==> bus.probe_wf(),
            bus@.mem.len() == old(bus)@.mem.len(),
        decreases places.len() - i,
    {
        let at: u32 = segment.wrapping_add(places[i]);
        let v: u32 = bus.read_long(at).wrapping_add(base);
        bus.write_long(at, v);
        i += 1;
    }
}

/// Relocates a far segment.
pub fn apply_mpw_far_segment_relocations(bus: &mut MacMemoryBus, segment_addr: u32, data: &Vec<u8>, a5_base: u32)
    ensures
        final(bus)@ == far_relocated(old(bus)@, data@, segment_addr, a5_base),
        old(bus).probe_wf() ==> final(bus).probe_wf(),
        final(bus)@.mem.len() == old(bus)@.mem.len(),
{
    if data.len() < MPW_FAR_HEADER_SIZE {
        return;
    }
    let a5_places: Vec<u32> = read_relocations(data, read_be32(data, 20));
    relocate(bus, segment_addr, &a5_places, a5_base);
    let pc_places: Vec<u32> = read_relocations(data, read_be32(data, 28));
    relocate(bus, segment_addr, &pc_places, segment_addr);
    bus.write_long(segment_addr.wrapping_add(MPW_CURRENT_A5_OFFSET), a5_base);
    bus.write_long(segment_addr.wrapping_add(MPW_LOAD_ADDRESS_OFFSET), segment_addr);
}

/// `value` as a multiple of four, not below it.
pub open spec fn aligned4(value: u32) -> u32 {
    if value > 0xFFFF_FFFC {
        0xFFFF_FFFC
    } else {
        ((value + 3) / 4 * 4) as u32
    }
}

/// `value` as a multiple of four, not below it as far as there is one.
pub fn align4(value: u32) -> (r: u32)
    ensures
        r == aligned4(value),
        r % 4 == 0,
        value <= 0xFFFF_FFFC ==> value <= r < value + 4,
{
    if value > 0xFFFF_FFFC {
        0xFFFF_FFFC
    } else {
        ((value as u64 + 3) / 4 * 4) as u32
    }
}

/// `a - b`, not below zero.
pub open spec fn less(a: u32, b: u32) -> u32 {
    if a < b {
        0
    } else {
        (a - b) as u32
    }
}

/// `a + b`, not above the largest number.
pub open spec fn more(a: u32, b: u32) -> u32 {
    if a + b > u32::MAX {
        u32::MAX
    } else {
        (a + b) as u32
    }
}

/// Where the heap of a loaded application begins.
pub open spec fn heap_start(image_end: u32) -> u32 {
    if aligned4(image_end) > APP_HEAP_FLOOR {
        aligned4(image_end)
    } else {
        APP_HEAP_FLOOR
    }
}

/// Where the heap of a loaded application begins.
pub fn app_heap_start_for_loaded_app(app: &LoadedApp) -> (r: u32)
    ensures
        r == heap_start(app@.loaded_image_end),
        r >= APP_HEAP_FLOOR,
{
    let end: u32 = align4(app.loaded_image_end);
    if end > APP_HEAP_FLOOR {
        end
    } else {
        APP_HEAP_FLOOR
    }
}

impl AppView {
    /// Where the application's memory image begins.
    pub open spec fn image_start(self) -> u32 {
        less(self.a5_base, self.code0_header.below_a5)
    }

    /// Where the heap zone begins that the application sees.
    pub open spec fn zone_start(self) -> u32 {
        if self.image_start() >= APP_HEAP_FLOOR + APP_ZONE_HEADER_SIZE {
            APP_HEAP_FLOOR
        } else {
            heap_start(self.loaded_image_end)
        }
    }
}

/// Where the application's memory image begins.
pub fn app_image_start_for_loaded_app(app: &LoadedApp) -> (r: u32)
    ensures
        r == app@.image_start(),
{
    app.a5_base.saturating_sub(app.code0_header.below_a5)
}

/// Where the heap zone begins that the application sees.
pub fn app_visible_zone_start_for_loaded_app(app: &LoadedApp) -> (r: u32)
    ensures
        r == app@.zone_start(),
{
    if app_image_start_for_loaded_app(app) >= APP_HEAP_FLOOR + APP_ZONE_HEADER_SIZE {
        APP_HEAP_FLOOR
    } else {
        app_heap_start_for_loaded_app(app)
    }
}

/// Where an application is loaded: where the settings say, unless they say
/// nothing and the application needs much memory; then so high that A5 leaves
/// its heap the least size, as far as RAM has room.
pub open spec fn load_address(
    configured: u32,
    below_a5: u32,
    size: Option<ApplicationSizeResource>,
    ram: u32,
) -> u32 {
    match size {
        Some(s) if configured == DEFAULT_LOAD_ADDRESS && s.preferred() is Some && s.minimum_size
            > LARGE_SIZE_RELOCATION_MINIMUM => {
            let a5 = more(APP_HEAP_FLOOR, less(s.minimum_size, APP_STACK_SAFETY_MARGIN));
            let high = aligned4(less(a5, below_a5));
            if a5 > more(configured, below_a5) && high < less(ram, TOP_RESERVE) {
                high
            } else {
                configured
            }
        },
        _ => configured,
    }
}

/// Where an application is loaded.
pub fn load_address_for_size_partition(
    configured_load_address: u32,
    header: &Code0Header,
    size_resource: Option<ApplicationSizeResource>,
    ram_size: u32,
) -> (r: u32)
    ensures
        r == load_address(configured_load_address, header.below_a5, size_resource, ram_size),
{
    if configured_load_address != DEFAULT_LOAD_ADDRESS {
        return configured_load_address;
    }
    let size: ApplicationSizeResource = match size_resource {
        Some(s) => s,
        None => return configured_load_address,
    };
    if size.preferred_partition_size().is_none() || size.minimum_size <= LARGE_SIZE_RELOCATION_MINIMUM {
        return configured_load_address;
    }
    let desired_a5: u32 = APP_HEAP_FLOOR.saturating_add(size.minimum_size.saturating_sub(APP_STACK_SAFETY_MARGIN));
    let default_a5: u32 = configured_load_address.saturating_add(header.below_a5);
    if desired_a5 <= default_a5 {
        return configured_load_address;
    }
    let max_reasonable_load: u32 = ram_size.saturating_sub(TOP_RESERVE);
    let relocated_load: u32 = align4(desired_a5.saturating_sub(header.below_a5));
    if relocated_load < max_reasonable_load {
        relocated_load
    } else {
        configured_load_address
    }
}

/// What the processor's exception vectors hold after the system has started.
pub open spec fn boot_vector(i: u32) -> u32 {
    match i {
        0 | 1 => 0x4081_0000,
        2 => 0x0001_EAD6,
        3 => 0x0001_EAD8,
        4 => 0x0001_EADA,
        5 => 0x0001_EADC,
        6 => 0x4080_26F8,
        7 => 0x4080_26FA,
        8 => 0x4080_26FC,
        9 => 0x4080_26FE,
        10 => 0x4080_99B0,
        11 => 0x4088_D9FE,
        25 => 0x0008_3C16,
        26 => 0x4080_9B40,
        27 => 0x4080_A1B0,
        28 => 0x0000_6436,
        29 | 30 => 0x4080_9B00,
        31 => 0x0007_37D6,
        48 => 0x4088_D252,
        51 => 0x4088_D856,
        52 => 0x4088_D28C,
        53 => 0x4088_D544,
        54 => 0x4088_D68E,
        55 => 0x4088_DAB0,
        _ => 0x4080_2704,
    }
}

fn read_boot_vector(i: u32) -> (r: u32)
    ensures
        r == boot_vector(i),
{
    match i {
        0 | 1 => 0x4081_0000,
        2 => 0x0001_EAD6,
        3 => 0x0001_EAD8,
        4 => 0x0001_EADA,
        5 => 0x0001_EADC,
        6 => 0x4080_26F8,
        7 => 0x4080_26FA,
        8 => 0x4080_26FC,
        9 => 0x4080_26FE,
        10 => 0x4080_99B0,
        11 => 0x4088_D9FE,
        25 => 0x0008_3C16,
        26 => 0x4080_9B40,
        27 => 0x4080_A1B0,
        28 => 0x0000_6436,
        29 | 30 => 0x4080_9B00,
        31 => 0x0007_37D6,
        48 => 0x4088_D252,
        51 => 0x4088_D856,
        52 => 0x4088_D28C,
        53 => 0x4088_D544,
        54 => 0x4088_D68E,
        55 => 0x4088_DAB0,
        _ => 0x4080_2704,
    }
}

/// Memory with `RTS` in the first `n` words from $60 on.
pub open spec fn with_returns(b: BusView, n: nat) -> BusView
    decreases n,
{
    if n == 0 {
        b
    } else {
        with_returns(b, (n - 1) as nat).word((0x60 + 2 * (n - 1)) as u32, 0x4E75)
    }
}

/// Memory with the first `n` exception vectors in place.
pub open spec fn with_vectors(b: BusView, n: nat) -> BusView
    decreases n,
{
    if n == 0 {
        b
    } else {
        with_vectors(b, (n - 1) as nat).long((4 * (n - 1)) as u32, boot_vector((n - 1) as u32))
    }
}

/// Low memory as an application finds it: routines that only return, the
/// exception vectors, and an `RTE` for divisions by zero, `CHK` and `TRAPV`.
pub open spec fn with_low_memory(b: BusView) -> BusView {
    with_vectors(with_returns(b, 80), 64).word(0xFE, 0x4E73).long(0x14, 0xFE).long(0x18, 0xFE).long(0x1C, 0xFE)
}

fn write_low_memory(bus: &mut MacMemoryBus)
    ensures
        final(bus)@ == with_low_memory(old(bus)@),
        old(bus).probe_wf() ==> final(bus).probe_wf(),
        final(bus)@.mem.len() == old(bus)@.mem.len(),
{
    let mut i: u32 = 0;
    while i < 80
        invariant
            i <= 80,
            bus@ == with_returns(old(bus)@, i as nat),
            old(bus).probe_wf() ==> bus.probe_wf(),
            bus@.mem.len() == old(bus)@.mem.len(),
        decreases 80 - i,
    {
        bus.write_word(0x60 + 2 * i, 0x4E75);
        i += 1;
    }
    let ghost stubs = bus@;
    let mut k: u32 = 0;
    while k < 64
        invariant
            k <= 64,
            stubs == with_returns(old(bus)@, 80),
            bus@ == with_vectors(stubs, k as nat),
            old(bus).probe_wf() ==> bus.probe_wf(),
            bus@.mem.len() == old(bus)@.mem.len(),
        decreases 64 - k,
    {
        bus.write_long(4 * k, read_boot_vector(k));
        k += 1;
    }
    bus.write_word(0xFE, 0x4E73);
    bus.write_long(0x14, 0xFE);
    bus.write_long(0x18, 0xFE);
    bus.write_long(0x1C, 0xFE);
}

/// Entry `i` of the jump table that code segment 0 holds behind its header.
pub open spec fn jump_entry(s: Seq<u8>, i: int) -> JumpTableEntry {
    let at = 16 + 8 * i;
    if be16(s, at + 2) == 0xA9F0 {
        JumpTableEntry { offset: be16(s, at + 6), segment: be16(s, at) as i16, loaded: false, address: 0 }
    } else if be16(s, at + 2) == 0xFFFF {
        JumpTableEntry { offset: 0, segment: 0, loaded: false, address: 0 }
    } else {
        JumpTableEntry { offset: be16(s, at), segment: be16(s, at + 4) as i16, loaded: false, address: 0 }
    }
}

/// How many entries code segment 0 holds: as many as it says, as far as there
/// are bytes for them.
pub open spec fn jump_count(s: Seq<u8>) -> nat {
    let said = (be32(s, 8) / 8) as nat;
    let held = ((s.len() - 16) / 8) as nat;
    if said < held {
        said
    } else {
        held
    }
}

/// The jump table that code segment 0 holds.
pub open spec fn jump_table(s: Seq<u8>) -> Seq<JumpTableEntry> {
    Seq::new(jump_count(s), |i: int| jump_entry(s, i))
}

fn read_jump_table(s: &Vec<u8>) -> (r: Vec<JumpTableEntry>)
    requires
        s@.len() >= 16,
    ensures
        r@ == jump_table(s@),
{
    let said: usize = (read_be32(s, 8) / 8) as usize;
    let held: usize = (s.len() - 16) / 8;
    let n: usize = if said < held { said } else { held };
    let mut out: Vec<JumpTableEntry> = Vec::new();
    let mut i: usize = 0;
    while i < n
        invariant
            i <= n,
            n == jump_count(s@),
            16 + 8 * n <= s@.len() <= usize::MAX,
            out@.len() == i,
            forall|k: int| 0 <= k < i ==> out@[k] == jump_entry(s@, k),
        decreases n - i,
    {
        let at: usize = 16 + 8 * i;
        let w: u16 = read_be16(s, at + 2);
        let entry: JumpTableEntry = if w == 0xA9F0 {
            JumpTableEntry { offset: read_be16(s, at + 6), segment: read_be16(s, at) as i16, loaded: false, address: 0 }
        } else if w == 0xFFFF {
            JumpTableEntry { offset: 0, segment: 0, loaded: false, address: 0 }
        } else {
            JumpTableEntry { offset: read_be16(s, at), segment: read_be16(s, at + 4) as i16, loaded: false, address: 0 }
        };
        out.push(entry);
        i += 1;
    }
    assert(out@ =~= jump_table(s@));
    out
}

/// `list` with `r` in its place: behind the last one of the first `k` whose
/// number is not larger.
pub open spec fn with_code(list: Seq<ResourceView>, r: ResourceView, k: nat) -> Seq<ResourceView>
    decreases k,
{
    if k > 0 && list[k - 1].id > r.id {
        with_code(list, r, (k - 1) as nat)
    } else {
        list.insert(k as int, r)
    }
}

/// The code segments among the first `n` resources by their numbers; those of
/// one number stay in order.
pub open spec fn code_order(rs: Seq<ResourceView>, n: nat) -> Seq<ResourceView>
    decreases n,
{
    if n == 0 {
        Seq::empty()
    } else {
        let before = code_order(rs, (n - 1) as nat);
        if rs[n - 1].res_type == CODE_TYPE {
            with_code(before, rs[n - 1], before.len())
        } else {
            before
        }
    }
}

/// The resources at some positions.
pub open spec fn at_positions(rs: Seq<ResourceView>, order: Seq<usize>) -> Seq<ResourceView> {
    order.map_values(|i: usize| rs[i as int])
}

fn sort_codes(fork: &ResourceFork) -> (r: Vec<usize>)
    ensures
        forall|k: int| 0 <= k < r@.len() ==> (#[trigger] r@[k]) < fork@.len(),
        at_positions(fork@, r@) == code_order(fork@, fork@.len()),
{
    let mut order: Vec<usize> = Vec::new();
    let mut i: usize = 0;
    assert(at_positions(fork@, order@) =~= Seq::empty());
    while i < fork.resources.len()
        invariant
            i <= fork.resources.len(),
            forall|k: int| 0 <= k < order@.len() ==> (#[trigger] order@[k]) < i,
            at_positions(fork@, order@) == code_order(fork@, i as nat),
        decreases fork.resources.len() - i,
    {
        if fork.resources[i].res_type == CODE_TYPE {
            let id: i16 = fork.resources[i].id;
            let mut k: usize = order.len();
            let ghost list = at_positions(fork@, order@);
            while k > 0 && fork.resources[order[k - 1]].id > id
                invariant
                    i < fork.resources.len(),
                    k <= order@.len(),
                    forall|j: int| 0 <= j < order@.len() ==> (#[trigger] order@[j]) < i,
                    list == at_positions(fork@, order@),
                    id == fork@[i as int].id,
                    with_code(list, fork@[i as int], list.len()) == with_code(list, fork@[i as int], k as nat),
                decreases k,
            {
                k -= 1;
            }
            order.insert(k, i);
            assert(at_positions(fork@, order@) =~= list.insert(k as int, fork@[i as int]));
        }
        i += 1;
    }
    order
}

/// An unloaded entry of segment `id`, where the entry is still empty or a mere
/// place holder.
pub open spec fn with_stub(b: BusView, entry: u32, id: i16) -> BusView {
    if b.get_word(entry.wrapping_add(2)) == 0xFFFF {
        let offset = b.get_word(entry);
        b.word(entry, 0xA9F0).word(entry.wrapping_add(2), 0).word(entry.wrapping_add(4), offset).word(
            entry.wrapping_add(6),
            id as u16,
        )
    } else if b.get_long(entry) == 0 && b.get_long(entry.wrapping_add(4)) == 0 {
        b.word(entry, 0).word(entry.wrapping_add(2), 0x3F3C).word(entry.wrapping_add(4), id as u16).word(
            entry.wrapping_add(6),
            0xA9F0,
        )
    } else {
        b
    }
}

/// Memory with the first `n` entries from `first` on made ready for segment `id`.
pub open spec fn with_stubs(b: BusView, first: u32, id: i16, n: nat) -> BusView
    decreases n,
{
    if n == 0 {
        b
    } else {
        with_stub(with_stubs(b, first, id, (n - 1) as nat), first.wrapping_add((8 * (n - 1)) as u32), id)
    }
}

/// The jump table entries that belong to a segment of its own.
pub open spec fn entries_of(r: ResourceView) -> Option<(u32, u32)> {
    match segment_header(r.data) {
        Some(h) if r.id != 0 => h.own_entries(),
        _ => None,
    }
}

/// Memory with the jump table entries of the first `n` segments made ready, and
/// where the jump table ends.
pub open spec fn table_ready(b: BusView, codes: Seq<ResourceView>, table: u32, end: u32, n: nat) -> (BusView, u32)
    decreases n,
{
    if n == 0 {
        (b, end)
    } else {
        let (before, e) = table_ready(b, codes, table, end, (n - 1) as nat);
        match entries_of(codes[n - 1]) {
            Some((offset, count)) => {
                let first = table.wrapping_add(offset);
                let last = first.wrapping_add(count.wrapping_mul(8));
                (with_stubs(before, first, codes[n - 1].id, count as nat), if last > e { last } else { e })
            },
            None => (before, e),
        }
    }
}

fn write_stub(bus: &mut MacMemoryBus, entry: u32, id: i16)
    ensures
        final(bus)@ == with_stub(old(bus)@, entry, id),
        old(bus).probe_wf() ==> final(bus).probe_wf(),
        final(bus)@.mem.len() == old(bus)@.mem.len(),
{
    if bus.read_word(entry.wrapping_add(2)) == 0xFFFF {
        let offset: u16 = bus.read_word(entry);
        bus.write_word(entry, 0xA9F0);
        bus.write_word(entry.wrapping_add(2), 0);
        bus.write_word(entry.wrapping_add(4), offset);
        bus.write_word(entry.wrapping_add(6), id as u16);
    } else if bus.read_long(entry) == 0 && bus.read_long(entry.wrapping_add(4)) == 0 {
        bus.write_word(entry, 0);
        bus.write_word(entry.wrapping_add(2), 0x3F3C);
        bus.write_word(entry.wrapping_add(4), id as u16);
        bus.write_word(entry.wrapping_add(6), 0xA9F0);
    }
}

fn write_stubs(bus: &mut MacMemoryBus, first: u32, id: i16, n: u32)
    requires
        n <= 0xFFFF,
    ensures
        final(bus)@ == with_stubs(old(bus)@, first, id, n as nat),
        old(bus).probe_wf() ==> final(bus).probe_wf(),
        final(bus)@.mem.len() == old(bus)@.mem.len(),
{
    let mut i: u32 = 0;
    while i < n
        invariant
            i <= n <= 0xFFFF,
            bus@ == with_stubs(old(bus)@, first, id, i as nat),
            old(bus).probe_wf() ==> bus.probe_wf(),
            bus@.mem.len() == old(bus)@.mem.len(),
        decreases n - i,
    {
        write_stub(bus, first.wrapping_add(8 * i), id);
        i += 1;
    }
}

fn read_entries_of(r: &Resource) -> (e: Option<(u32, u32)>)
    ensures
        e == entries_of(r@),
        e matches Some(p) ==> p.1 <= 0xFFFF,
{
    if r.id == 0 {
        return None;
    }
    match CodeSegmentHeader::parse(&r.data) {
        Some(h) => h.jump_table_entries(),
        None => None,
    }
}

fn ready_table(bus: &mut MacMemoryBus, fork: &ResourceFork, order: &Vec<usize>, table: u32, end: u32) -> (r: u32)
    requires
        forall|k: int| 0 <= k < order@.len() ==> (#[trigger] order@[k]) < fork@.len(),
    ensures
        (final(bus)@, r) == table_ready(old(bus)@, at_positions(fork@, order@), table, end, order@.len()),
        old(bus).probe_wf() ==> final(bus).probe_wf(),
        final(bus)@.mem.len() == old(bus)@.mem.len(),
{
    let mut e: u32 = end;
    let mut i: usize = 0;
    let ghost codes = at_positions(fork@, order@);
    while i < order.len()
        invariant
            i <= order.len(),
            forall|k: int| 0 <= k < order@.len() ==> (#[trigger] order@[k]) < fork@.len(),
            codes == at_positions(fork@, order@),
            (bus@, e) == table_ready(old(bus)@, codes, table, end, i as nat),
            old(bus).probe_wf() ==> bus.probe_wf(),
            bus@.mem.len() == old(bus)@.mem.len(),
        decreases order.len() - i,
    {
        let r: &Resource = &fork.resources[order[i]];
        assert(codes[i as int] == r@);
        if let Some((offset, count)) = read_entries_of(r) {
            let first: u32 = table.wrapping_add(offset);
            let last: u32 = first.wrapping_add(count.wrapping_mul(8));
            write_stubs(bus, first, r.id, count);
            if last > e {
                e = last;
            }
        }
        i += 1;
    }
    e
}

/// The state while code segments are loaded.
pub struct LoadState {
    pub bus: BusView,
    pub table: Seq<JumpTableEntry>,
    pub bases: Map<i16, u32>,
    /// Where the next segment goes.
    pub next: u32,
}

/// The state with the first `n` jump table entries of segment `id` pointing
/// into it.
pub open spec fn pointed(st: LoadState, id: i16, base: u32, table: u32, n: nat) -> LoadState
    decreases n,
{
    if n == 0 {
        st
    } else {
        let s = pointed(st, id, base, table, (n - 1) as nat);
        let e = s.table[n - 1];
        if e.segment != id {
            s
        } else {
            let address = base.wrapping_add(e.offset as u32);
            let at = table.wrapping_add((8 * (n - 1)) as u32);
            LoadState {
                bus: s.bus.word(at, id as u16).word(at.wrapping_add(2), 0x4EF9).long(at.wrapping_add(4), address),
                table: s.table.update(n - 1, JumpTableEntry { loaded: true, address, ..e }),
                ..s
            }
        }
    }
}

/// The state with segment `r` loaded. Segments with far headers are relocated,
/// and their jump table entries point into them.
pub open spec fn segment_loaded(st: LoadState, r: ResourceView, a5: u32, table: u32) -> LoadState {
    if r.id == 0 {
        st
    } else {
        let size = r.data.len() as u32;
        let base = st.next.wrapping_add(4);
        let s = LoadState {
            bus: st.bus.long(st.next, size).bytes(base, r.data),
            table: st.table,
            bases: st.bases.insert(r.id, base),
            next: less4(base.wrapping_add(size).wrapping_add(7)),
        };
        if segment_header(r.data) == Some(CodeSegmentHeader::MpwFar) {
            pointed(LoadState { bus: far_relocated(s.bus, r.data, base, a5), ..s }, r.id, base, table, s.table.len())
        } else {
            s
        }
    }
}

/// `a` as a multiple of four, not above it.
pub open spec fn less4(a: u32) -> u32 {
    (a / 4 * 4) as u32
}

/// The state with the first `n` segments loaded.
pub open spec fn segments_loaded(st: LoadState, codes: Seq<ResourceView>, a5: u32, table: u32, n: nat) -> LoadState
    decreases n,
{
    if n == 0 {
        st
    } else {
        segment_loaded(segments_loaded(st, codes, a5, table, (n - 1) as nat), codes[n - 1], a5, table)
    }
}

/// The parts of a load in progress.
struct Loading {
    table: Vec<JumpTableEntry>,
    bases: HashMap<i16, u32>,
    next: u32,
}

impl Loading {
    spec fn state(&self, b: BusView) -> LoadState {
        LoadState { bus: b, table: self.table@, bases: self.bases@, next: self.next }
    }

    fn point(&mut self, bus: &mut MacMemoryBus, id: i16, base: u32, table: u32)
        requires
            old(self).table@.len() <= 0x2000_0000,
        ensures
            final(self).state(final(bus)@) == pointed(
                old(self).state(old(bus)@),
                id,
                base,
                table,
                old(self).table@.len(),
            ),
            final(self).table@.len() == old(self).table@.len(),
            old(bus).probe_wf() ==> final(bus).probe_wf(),
            final(bus)@.mem.len() == old(bus)@.mem.len(),
    {
        let mut i: usize = 0;
        while i < self.table.len()
            invariant
                i <= self.table.len(),
                self.table@.len() == old(self).table@.len(),
                self.table@.len() <= 0x2000_0000,
                self.state(bus@) == pointed(old(self).state(old(bus)@), id, base, table, i as nat),
                old(bus).probe_wf() ==> bus.probe_wf(),
                bus@.mem.len() == old(bus)@.mem.len(),
            decreases self.table.len() - i,
        {
            let e: JumpTableEntry = self.table[i];
            if e.segment == id {
                let address: u32 = base.wrapping_add(e.offset as u32);
                let at: u32 = table.wrapping_add((8 * i) as u32);
                bus.write_word(at, id as u16);
                bus.write_word(at.wrapping_add(2), 0x4EF9);
                bus.write_long(at.wrapping_add(4), address);
                self.table.set(i, JumpTableEntry { offset: e.offset, segment: e.segment, loaded: true, address });
            }
            i += 1;
        }
    }

    fn load_segment(&mut self, bus: &mut MacMemoryBus, r: &Resource, a5: u32, table: u32)
        requires
            old(self).table@.len() <= 0x2000_0000,
        ensures
            final(self).state(final(bus)@) == segment_loaded(old(self).state(old(bus)@), r@, a5, table),
            final(self).table@.len() == old(self).table@.len(),
            old(bus).probe_wf() ==> final(bus).probe_wf(),
            final(bus)@.mem.len() == old(bus)@.mem.len(),
    {
        if r.id == 0 {
            return;
        }
        let size: u32 = r.data.len() as u32;
        let base: u32 = self.next.wrapping_add(4);
        bus.write_long(self.next, size);
        bus.write_bytes(base, r.data.as_slice());
        self.bases.insert(r.id, base);
        self.next = base.wrapping_add(size).wrapping_add(7) / 4 * 4;
        let far: bool = match CodeSegmentHeader::parse(&r.data) {
            Some(CodeSegmentHeader::MpwFar) => true,
            _ => false,
        };
        if far {
            apply_mpw_far_segment_relocations(bus, base, &r.data, a5);
            self.point(bus, r.id, base, table);
        }
    }

    fn load_segments(&mut self, bus: &mut MacMemoryBus, fork: &ResourceFork, order: &Vec<usize>, a5: u32, table: u32)
        requires
            forall|k: int| 0 <= k < order@.len() ==> (#[trigger] order@[k]) < fork@.len(),
            old(self).table@.len() <= 0x2000_0000,
        ensures
            final(self).state(final(bus)@) == segments_loaded(
                old(self).state(old(bus)@),
                at_positions(fork@, order@),
                a5,
                table,
                order@.len(),
            ),
            old(bus).probe_wf() ==> final(bus).probe_wf(),
            final(bus)@.mem.len() == old(bus)@.mem.len(),
    {
        let mut i: usize = 0;
        let ghost codes = at_positions(fork@, order@);
        while i < order.len()
            invariant
                i <= order.len(),
                forall|k: int| 0 <= k < order@.len() ==> (#[trigger] order@[k]) < fork@.len(),
                codes == at_positions(fork@, order@),
                self.table@.len() == old(self).table@.len(),
                self.table@.len() <= 0x2000_0000,
                self.state(bus@) == segments_loaded(old(self).state(old(bus)@), codes, a5, table, i as nat),
                old(bus).probe_wf() ==> bus.probe_wf(),
                bus@.mem.len() == old(bus)@.mem.len(),
            decreases order.len() - i,
        {
            let r: &Resource = &fork.resources[order[i]];
            assert(codes[i as int] == r@);
            self.load_segment(bus, r, a5, table);
            i += 1;
        }
    }
}

/// What the `SIZE` resource of a fork says.
pub open spec fn fork_size(rs: Seq<ResourceView>) -> Option<ApplicationSizeResource> {
    match resource_at(rs, SIZE_TYPE, (-1) as i16, 0) {
        Some(i) => size_resource(rs[i].data),
        None => None,
    }
}

/// The larger of two.
pub open spec fn larger(a: u32, b: u32) -> u32 {
    if a > b {
        a
    } else {
        b
    }
}

/// The plan of an application's memory: where it is loaded, A5, the jump table,
/// the end of the globals, and the end of what is cleared.
pub struct LoadPlan {
    pub header: Code0Header,
    pub size: Option<ApplicationSizeResource>,
    pub load: u32,
    pub a5: u32,
    pub table: u32,
    pub globals_end: u32,
    pub cleared_end: u32,
}

/// The plan for an application whose code segment 0 says `header`.
pub open spec fn load_plan(
    header: Code0Header,
    size: Option<ApplicationSizeResource>,
    configured: u32,
    ram: u32,
) -> LoadPlan {
    let load = load_address(configured, header.below_a5, size, ram);
    let a5 = load.wrapping_add(header.below_a5);
    let globals_end = a5.wrapping_add(header.above_a5).wrapping_add(QD_GLOBALS_RESERVE);
    LoadPlan {
        header,
        size,
        load,
        a5,
        table: a5.wrapping_add(header.jump_table_offset),
        globals_end,
        cleared_end: globals_end.wrapping_add(CLEARED_BEHIND_GLOBALS),
    }
}

/// Memory with the application's globals: cleared, low memory in place, and
/// their initial values from the `DATA` resource.
#[verifier::opaque]
pub open spec fn globals_loaded(b: BusView, rs: Seq<ResourceView>, p: LoadPlan) -> BusView {
    let b = with_low_memory(
        b.filled(p.load, less(p.cleared_end, p.load), 0).long(CURRENT_A5, p.a5).word(
            CUR_JT_OFFSET,
            p.header.jump_table_offset as u16,
        ).word(ROM85, 0),
    );
    match resource_at(rs, DATA_TYPE, 0, 0) {
        Some(i) => b.bytes(p.load, rs[i].data),
        None => b,
    }
}

/// Memory with code segment 0 behind the globals, and its jump table in place.
#[verifier::opaque]
pub open spec fn code0_loaded(b: BusView, code0: Seq<u8>, p: LoadPlan) -> BusView {
    b.long(p.globals_end, code0.len() as u32).bytes(p.globals_end.wrapping_add(4), code0).bytes(p.table, code0.skip(16))
}

/// The state with every code segment loaded.
#[verifier::opaque]
pub open spec fn codes_loaded(b: BusView, rs: Seq<ResourceView>, code0: Seq<u8>, p: LoadPlan) -> LoadState {
    let codes = code_order(rs, rs.len());
    let user = p.globals_end.wrapping_add(4);
    let (b2, end) = table_ready(
        b,
        codes,
        p.table,
        p.table.wrapping_add((8 * jump_count(code0)) as u32),
        codes.len(),
    );
    let boundary = larger(user.wrapping_add(code0.len() as u32), end);
    segments_loaded(
        LoadState {
            bus: b2,
            table: jump_table(code0),
            bases: Map::empty().insert(0i16, user),
            next: less4(boundary.wrapping_add(4)),
        },
        codes,
        p.a5,
        p.table,
        codes.len(),
    )
}

/// Memory with an application loaded, and the application.
pub open spec fn app_loaded(b: BusView, rs: Seq<ResourceView>, configured: u32) -> Option<(BusView, AppView)> {
    match resource_at(rs, CODE_TYPE, 0, 0) {
        Some(i) => match code0_header(rs[i].data) {
            Some(header) => {
                let code0 = rs[i].data;
                let p = load_plan(header, fork_size(rs), configured, b.ram_size());
                let st = codes_loaded(code0_loaded(globals_loaded(b, rs, p), code0, p), rs, code0, p);
                Some(
                    (
                        st.bus,
                        AppView {
                            code0_header: header,
                            a5_base: p.a5,
                            jump_table: st.table,
                            segment_bases: st.bases,
                            loaded_image_end: aligned4(larger(p.cleared_end, st.next)),
                            initial_sp: less(b.ram_size(), STACK_TOP_GAP),
                            size_resource: p.size,
                        },
                    ),
                )
            },
            None => None,
        },
        None => None,
    }
}

fn plan_load(header: Code0Header, size: Option<ApplicationSizeResource>, configured: u32, ram: u32) -> (r: LoadPlan)
    ensures
        r == load_plan(header, size, configured, ram),
{
    let load: u32 = load_address_for_size_partition(configured, &header, size, ram);
    let a5: u32 = load.wrapping_add(header.below_a5);
    let globals_end: u32 = a5.wrapping_add(header.above_a5).wrapping_add(QD_GLOBALS_RESERVE);
    LoadPlan {
        header,
        size,
        load,
        a5,
        table: a5.wrapping_add(header.jump_table_offset),
        globals_end,
        cleared_end: globals_end.wrapping_add(CLEARED_BEHIND_GLOBALS),
    }
}

fn load_globals(bus: &mut MacMemoryBus, fork: &ResourceFork, p: &LoadPlan)
    ensures
        final(bus)@ == globals_loaded(old(bus)@, fork@, *p),
        old(bus).probe_wf() ==> final(bus).probe_wf(),
        final(bus)@.mem.len() == old(bus)@.mem.len(),
{
    proof {
        reveal(globals_loaded);
    }
    bus.fill_bytes(p.load, p.cleared_end.saturating_sub(p.load), 0);
    bus.write_long(CURRENT_A5, p.a5);
    bus.write_word(CUR_JT_OFFSET, p.header.jump_table_offset as u16);
    bus.write_word(ROM85, 0);
    write_low_memory(bus);
    if let Some(i) = fork.find(DATA_TYPE, 0) {
        bus.write_bytes(p.load, fork.resources[i].data.as_slice());
    }
}

fn load_code0(bus: &mut MacMemoryBus, code0: &Vec<u8>, p: &LoadPlan)
    requires
        code0@.len() >= 16,
    ensures
        final(bus)@ == code0_loaded(old(bus)@, code0@, *p),
        old(bus).probe_wf() ==> final(bus).probe_wf(),
        final(bus)@.mem.len() == old(bus)@.mem.len(),
{
    proof {
        reveal(code0_loaded);
    }
    let table: Vec<u8> = crate::resource::slice_bytes(code0, 16, code0.len() - 16);
    assert(table@ =~= code0@.skip(16));
    bus.write_long(p.globals_end, code0.len() as u32);
    bus.write_bytes(p.globals_end.wrapping_add(4), code0.as_slice());
    bus.write_bytes(p.table, table.as_slice());
}

fn load_codes(bus: &mut MacMemoryBus, fork: &ResourceFork, code0: &Vec<u8>, p: &LoadPlan) -> (r: Loading)
    requires
        code0@.len() >= 16,
    ensures
        r.state(final(bus)@) == codes_loaded(old(bus)@, fork@, code0@, *p),
        old(bus).probe_wf() ==> final(bus).probe_wf(),
        final(bus)@.mem.len() == old(bus)@.mem.len(),
{
    proof {
        reveal(codes_loaded);
    }
    let order: Vec<usize> = sort_codes(fork);
    let table: Vec<JumpTableEntry> = read_jump_table(code0);
    let user: u32 = p.globals_end.wrapping_add(4);
    assert(jump_count(code0@) <= 0x2000_0000);
    let end: u32 = ready_table(bus, fork, &order, p.table, p.table.wrapping_add((8 * table.len()) as u32));
    let image: u32 = user.wrapping_add(code0.len() as u32);
    let boundary: u32 = if image > end { image } else { end };
    let mut bases: HashMap<i16, u32> = HashMap::new();
    bases.insert(0, user);
    let mut loading: Loading = Loading { table, bases, next: boundary.wrapping_add(4) / 4 * 4 };
    loading.load_segments(bus, fork, &order, p.a5, p.table);
    loading
}

/// Loads an application: its globals, its jump table and its code segments.
pub fn load_app_generic(fork: &ResourceFork, bus: &mut MacMemoryBus, configured_load_address: u32) -> (r: Option<LoadedApp>)
    ensures
        r is Some <==> app_loaded(old(bus)@, fork@, configured_load_address) is Some,
        r is None ==> final(bus)@ == old(bus)@,
        r matches Some(app) ==> (final(bus)@, app@) == app_loaded(old(bus)@, fork@, configured_load_address)->0,
        old(bus).probe_wf() ==> final(bus).probe_wf(),
        final(bus)@.mem.len() == old(bus)@.mem.len(),
{
    let code0: &Vec<u8> = match fork.find(CODE_TYPE, 0) {
        Some(i) => &fork.resources[i].data,
        None => return None,
    };
    let header: Code0Header = match Code0Header::parse(code0) {
        Some(h) => h,
        None => return None,
    };
    let size: Option<ApplicationSizeResource> = match fork.find(SIZE_TYPE, -1) {
        Some(i) => ApplicationSizeResource::parse(&fork.resources[i].data),
        None => None,
    };
    let ram: u32 = bus.ram_size();
    let plan: LoadPlan = plan_load(header, size, configured_load_address, ram);
    load_globals(bus, fork, &plan);
    load_code0(bus, code0, &plan);
    let loading: Loading = load_codes(bus, fork, code0, &plan);
    let image_end: u32 = if plan.cleared_end > loading.next { plan.cleared_end } else { loading.next };
    Some(
        LoadedApp {
            code0_header: header,
            a5_base: plan.a5,
            jump_table: loading.table,
            segment_bases: loading.bases,
            loaded_image_end: align4(image_end),
            initial_sp: ram.saturating_sub(STACK_TOP_GAP),
            size_resource: size,
        },
    )
}

} // verus!

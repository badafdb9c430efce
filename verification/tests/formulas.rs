use systemless::diagnostics::{
    opcode_group_name, pc_region_name, Diagnostics, TraceEntry, PC_SAMPLE_INTERVAL, TRACE_LENGTH,
};
use systemless::interrupts::{interrupt_callback_sr, is_sound_interrupt_source};
use systemless::listing::vfs_fork_hash;
use systemless::loader::{align4, load_address_for_size_partition, ApplicationSizeResource, Code0Header};
use systemless::memory::MacMemoryBus;
use systemless::policy::{
    canonical_trap_number, decode_fakeptr_pc, event_manager_yield_trap, hle_trap_extra_tick_cost,
    mac_epoch_seconds,
};
use systemless::resource::ResourceFork;
use systemless::runner::{ActiveInterruptCallbackSource, FixtureRunner, FixtureRunnerConfig};
use systemless::startup::write_fixed_pstring;
use systemless::text::{guest_file_name, join_path, normalize_path, path_base_name, path_parent};
use systemless::trace_range::TraceRange;

fn entry(pc: u32) -> TraceEntry {
    TraceEntry { pc, opcode: 0x4E71, a0: 1, sp: 2, a6: 3, a5: 4 }
}

#[test]
fn fork_hash_is_fnv_1a() {
    assert_eq!(vfs_fork_hash(&Vec::new()), 0xcbf2_9ce4_8422_2325);
    assert_eq!(vfs_fork_hash(&b"a".to_vec()), 0xaf63_dc4c_8601_ec8c);
    assert_eq!(vfs_fork_hash(&b"foobar".to_vec()), 0x8594_4171_f739_67e8);
}

#[test]
fn mac_time_counts_from_1904() {
    assert_eq!(mac_epoch_seconds(0), 2_082_844_800);
    assert_eq!(mac_epoch_seconds(1_000_000_000), 3_082_844_800);
    assert_eq!(mac_epoch_seconds(4_000_000_000), u32::MAX);
}

#[test]
fn trap_numbers_and_costs() {
    assert_eq!(canonical_trap_number(0xA975), (true, 0x175));
    assert_eq!(canonical_trap_number(0xAD75), (true, 0x175));
    assert_eq!(canonical_trap_number(0xA05D), (false, 0x5D));
    assert_eq!(hle_trap_extra_tick_cost(0xA975), 0);
    assert_eq!(hle_trap_extra_tick_cost(0xA05D), 2);
    assert_eq!(hle_trap_extra_tick_cost(0xA8A8), 4);
    assert!(event_manager_yield_trap(0xA860));
    assert!(!event_manager_yield_trap(0xA8A8));
}

#[test]
fn trap_placeholders_are_explained() {
    let hint = decode_fakeptr_pc(0x00F0_A8EC).expect("a placeholder");
    assert!(hint.contains("$A8EC"));
    let tool = decode_fakeptr_pc(0xCAFE_0175).expect("a placeholder");
    assert!(tool.contains("$A975") && tool.contains("$175"));
    assert_eq!(decode_fakeptr_pc(0x0001_0000), None);
    assert_eq!(decode_fakeptr_pc(0xCAFE_0400), None);
}

#[test]
fn interrupt_levels_are_masked_by_source() {
    assert_eq!(interrupt_callback_sr(ActiveInterruptCallbackSource::Vbl, 0x2004), 0x2104);
    assert_eq!(interrupt_callback_sr(ActiveInterruptCallbackSource::DialogFilterProc, 0x2004), 0x2004);
    assert!(is_sound_interrupt_source(ActiveInterruptCallbackSource::SoundDoubleBack));
    assert!(!is_sound_interrupt_source(ActiveInterruptCallbackSource::Timer));
}

#[test]
fn paths_have_one_form() {
    assert_eq!(normalize_path("/Games//EV:Override/"), "Games/EV/Override");
    assert_eq!(path_base_name("Games/EV/Override"), "Override");
    assert_eq!(path_parent("Games/EV/Override"), "Games/EV");
    assert_eq!(path_parent("Override"), "");
    assert_eq!(join_path("Games", "EV"), "Games/EV");
    assert_eq!(join_path("", "EV"), "EV");
}

#[test]
fn file_names_fit_the_guest() {
    assert_eq!(guest_file_name("Slot/1:a"), "Slot-1-a");
    assert_eq!(guest_file_name("caf\u{E9} \u{4E2D}"), "caf\u{E9} ?");
    let long = "x".repeat(100);
    assert_eq!(guest_file_name(&long).len(), 63);
}

#[test]
fn code_loads_where_the_partition_wants_it() {
    assert_eq!(align4(5), 8);
    assert_eq!(align4(8), 8);
    let header = Code0Header { above_a5: 0x11F8, below_a5: 0x7AF4, jump_table_size: 0, jump_table_offset: 0 };
    let small = Some(ApplicationSizeResource { flags: 0, preferred_size: 0x0010_0000, minimum_size: 0x0010_0000 });
    assert_eq!(load_address_for_size_partition(0x0001_0000, &header, small, 0x0200_0000), 0x0001_0000);
    assert_eq!(load_address_for_size_partition(0x0001_0000, &header, None, 0x0200_0000), 0x0001_0000);
}

#[test]
fn size_resource_needs_ten_bytes() {
    assert_eq!(ApplicationSizeResource::parse(&vec![0; 9]), None);
    let size = ApplicationSizeResource::parse(&vec![0x58, 0x80, 0, 0x30, 0, 0, 0, 0x20, 0, 0]).expect("a size");
    assert_eq!(size.flags, 0x5880);
    assert_eq!(size.preferred_partition_size(), Some(0x0030_0000));
}

#[test]
fn resource_fork_that_is_cut_short_is_refused() {
    assert!(ResourceFork::parse(&vec![0; 15]).is_none());
}

#[test]
fn rate_change_keeps_the_share_of_a_tick() {
    let mut runner = FixtureRunner::new(8 * 1024 * 1024, FixtureRunnerConfig::default());
    runner.set_instructions_per_tick(1000);
    runner.tick_budget = 250;
    runner.set_instructions_per_tick(4000);
    assert_eq!(runner.tick_budget, 1000);
    runner.tick_budget = -250;
    runner.set_instructions_per_tick(1000);
    assert_eq!(runner.tick_budget, -62);
    runner.set_instructions_per_tick(0);
    assert_eq!(runner.instructions_per_tick(), 1);
}

#[test]
fn pascal_string_is_cut_at_its_limit() {
    let mut bus = MacMemoryBus::new(0x1000);
    write_fixed_pstring(&mut bus, 0x100, "Register Helper", 8);
    assert_eq!(bus.read_byte(0x100), 8);
    assert_eq!(bus.read_bytes(0x101, 8), b"Register".to_vec());
    assert_eq!(bus.read_byte(0x109), 0);
}

#[test]
fn trace_range_reads_its_settings() {
    let range = TraceRange::parse(" 0x10000 : 1FFFF :rest", Some("100"), Some("bad")).expect("a range");
    assert_eq!(range.start, 0x10000);
    assert_eq!(range.end, 0x1FFFF);
    assert_eq!(range.first_tick, Some(100));
    assert_eq!(range.last_tick, None);
    assert!(range.contains(0x10000, 100));
    assert!(!range.contains(0x10000, 99));
    assert!(!range.contains(0x20000, 100));
    assert_eq!(TraceRange::parse("10000", None, None), None);
    assert_eq!(TraceRange::parse("10000:", None, None), None);
    assert_eq!(TraceRange::parse("0x0x1:+FFFFFFFF", None, None).map(|r| (r.start, r.end)), Some((1, u32::MAX)));
    assert_eq!(TraceRange::parse("0:100000000", None, None), None);
    assert_eq!(TraceRange::parse("0:-1", None, None), None);
}

#[test]
fn trace_keeps_the_last_instructions() {
    let mut seen = Diagnostics::new();
    assert!(seen.trace_find_fakeptr_entry().is_none());
    for i in 0..TRACE_LENGTH + 3 {
        seen.record(entry(0x1000 + i as u32));
    }
    assert_eq!(seen.trace_len(), TRACE_LENGTH);
    assert_eq!(seen.trace_at(0).pc, 0x1003);
    seen.record(entry(0x00F0_A975));
    seen.record(entry(0x00F0_A8EC));
    seen.record(entry(0x2000));
    let (pc, hint) = seen.trace_find_fakeptr_entry().expect("the latest placeholder");
    assert_eq!(pc, 0x00F0_A8EC);
    assert!(hint.contains("$A8EC"));
}

#[test]
fn histograms_are_ranked() {
    let mut seen = Diagnostics::new();
    for _ in 0..3 {
        seen.count_opcode(0x4E71);
    }
    seen.count_opcode(0x7001);
    seen.count_opcode(0x2078);
    let top = seen.top_opcodes(2);
    assert_eq!(top.top, vec![(0x4E71, 3), (0x2078, 1)]);
    assert_eq!(top.distinct, 3);
    assert_eq!(top.total, 5);

    seen.sample_pc(1, 0x9999);
    seen.sample_pc(PC_SAMPLE_INTERVAL, 0x0002_0000);
    seen.sample_pc(2 * PC_SAMPLE_INTERVAL, 0x0001_0000);
    seen.sample_pc(3 * PC_SAMPLE_INTERVAL, 0x0002_0000);
    let pcs = seen.top_pcs(10);
    assert_eq!(pcs.top, vec![(0x0002_0000, 2), (0x0001_0000, 1)]);
    assert_eq!(pcs.distinct, 2);
    assert_eq!(pcs.total, 3);
}

#[test]
fn names_of_groups_and_regions() {
    assert_eq!(opcode_group_name(0x4E71), "misc (LEA/JSR/etc.)");
    assert_eq!(opcode_group_name(0xF200), "F-line (FPU/coproc)");
    assert_eq!(pc_region_name(0x0000_FFFF), "low-mem");
    assert_eq!(pc_region_name(0x0001_0000), "app code");
    assert_eq!(pc_region_name(0x0060_0000), "heap/data");
    assert_eq!(pc_region_name(0x0100_0000), "ROM");
    assert_eq!(pc_region_name(0x0200_0000), "other");
}

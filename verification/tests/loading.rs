use systemless::globals;
use systemless::loader::{ApplicationSizeResource, MPW_CURRENT_A5_OFFSET, MPW_LOAD_ADDRESS_OFFSET, app_heap_start_for_loaded_app, app_image_start_for_loaded_app};
use systemless::resource::ResourceFork;
use systemless::runner::{APP_HEAP_FLOOR, APP_STACK_SAFETY_MARGIN, APP_ZONE_HEADER_SIZE, DEFAULT_LOAD_ADDRESS, FixtureRunner, FixtureRunnerConfig};

fn make_resource_fork_bytes(resources: &[([u8; 4], i16, &[u8])]) -> Vec<u8> {
    let mut type_groups: Vec<([u8; 4], Vec<(i16, &[u8], u32)>)> = Vec::new();
    for (res_type, res_id, data) in resources {
        let group_idx = type_groups
            .iter()
            .position(|(existing_type, _)| existing_type == res_type)
            .unwrap_or_else(|| {
                type_groups.push((*res_type, Vec::new()));
                type_groups.len() - 1
            });
        type_groups[group_idx].1.push((*res_id, *data, 0));
    }
    type_groups.sort_by_key(|(res_type, _)| *res_type);
    for (_, entries) in &mut type_groups {
        entries.sort_by_key(|(res_id, _, _)| *res_id);
    }

    let data_offset = 16u32;
    let mut data_section = Vec::new();
    for (_, entries) in &mut type_groups {
        for (_, data, data_pos) in entries {
            *data_pos = data_section.len() as u32;
            data_section.extend_from_slice(&(data.len() as u32).to_be_bytes());
            data_section.extend_from_slice(data);
        }
    }

    let map_offset = data_offset + data_section.len() as u32;
    let type_list_offset = 30u16;
    let type_count = type_groups.len();
    let resource_count: usize = type_groups.iter().map(|(_, entries)| entries.len()).sum();
    let ref_lists_offset = 2 + type_count * 8;
    let name_list_offset = type_list_offset as usize + ref_lists_offset + resource_count * 12;
    let map_length = name_list_offset as u32;

    let mut bytes = vec![0u8; (map_offset + map_length) as usize];
    let mut header = [0u8; 16];
    header[0..4].copy_from_slice(&data_offset.to_be_bytes());
    header[4..8].copy_from_slice(&map_offset.to_be_bytes());
    header[8..12].copy_from_slice(&(data_section.len() as u32).to_be_bytes());
    header[12..16].copy_from_slice(&map_length.to_be_bytes());
    bytes[0..16].copy_from_slice(&header);
    bytes[data_offset as usize..data_offset as usize + data_section.len()]
        .copy_from_slice(&data_section);

    let map_start = map_offset as usize;
    bytes[map_start..map_start + 16].copy_from_slice(&header);
    bytes[map_start + 24..map_start + 26].copy_from_slice(&type_list_offset.to_be_bytes());
    bytes[map_start + 26..map_start + 28]
        .copy_from_slice(&(name_list_offset as u16).to_be_bytes());
    bytes[map_start + 28..map_start + 30]
        .copy_from_slice(&((type_count as u16) - 1).to_be_bytes());

    let type_list_start = map_start + type_list_offset as usize;
    bytes[type_list_start..type_list_start + 2]
        .copy_from_slice(&((type_count as u16) - 1).to_be_bytes());
    let mut next_ref_list_offset = ref_lists_offset;
    for (i, (res_type, entries)) in type_groups.iter().enumerate() {
        let type_entry = type_list_start + 2 + i * 8;
        bytes[type_entry..type_entry + 4].copy_from_slice(res_type);
        bytes[type_entry + 4..type_entry + 6]
            .copy_from_slice(&((entries.len() as u16) - 1).to_be_bytes());
        bytes[type_entry + 6..type_entry + 8]
            .copy_from_slice(&(next_ref_list_offset as u16).to_be_bytes());

        let ref_list_start = type_list_start + next_ref_list_offset;
        for (j, (res_id, _, data_pos)) in entries.iter().enumerate() {
            let ref_entry = ref_list_start + j * 12;
            bytes[ref_entry..ref_entry + 2].copy_from_slice(&(*res_id as u16).to_be_bytes());
            bytes[ref_entry + 2..ref_entry + 4].copy_from_slice(&0xFFFFu16.to_be_bytes());
            bytes[ref_entry + 4] = 0;
            let data_offset_bytes = data_pos.to_be_bytes();
            bytes[ref_entry + 5..ref_entry + 8].copy_from_slice(&data_offset_bytes[1..4]);
        }

        next_ref_list_offset += entries.len() * 12;
    }

    bytes
}

fn minimal_code0(above_a5: u32, below_a5: u32, jt_size: u32, jt_offset: u32) -> Vec<u8> {
    let mut code0 = Vec::with_capacity(16 + jt_size as usize);
    code0.extend_from_slice(&above_a5.to_be_bytes());
    code0.extend_from_slice(&below_a5.to_be_bytes());
    code0.extend_from_slice(&jt_size.to_be_bytes());
    code0.extend_from_slice(&jt_offset.to_be_bytes());
    code0.resize(16 + jt_size as usize, 0);
    code0
}

fn size_resource_bytes(flags: u16, preferred_size: u32, minimum_size: u32) -> Vec<u8> {
    let mut size = Vec::with_capacity(10);
    size.extend_from_slice(&flags.to_be_bytes());
    size.extend_from_slice(&preferred_size.to_be_bytes());
    size.extend_from_slice(&minimum_size.to_be_bytes());
    size
}

#[test]
fn load_app_places_resources_above_large_loaded_image() {
    let code0 = minimal_code0(0x001D_0000, 0x0340, 0, 0);
    let marker = [0xCA, 0xFE, 0xBA, 0xBE, 0x12, 0x34, 0x56, 0x78];
    let fork_bytes =
        make_resource_fork_bytes(&[(*b"BGAS", 128, &marker), (*b"CODE", 0, &code0)]);
    let fork = ResourceFork::parse(&fork_bytes).expect("parse synthetic app fork");
    let mut runner = FixtureRunner::new(8 * 1024 * 1024, FixtureRunnerConfig::default());

    let app = runner.load_app(&fork).expect("load app");
    assert!(
        app.loaded_image_end > APP_HEAP_FLOOR,
        "fixture should force the loaded image across the default heap floor"
    );

    let heap_start = app_heap_start_for_loaded_app(&app);
    let (_, marker_ptr) = runner
        .dispatcher
        .resources.find_resource_any(*b"BGAS", 128)
        .expect("BGAS resource loaded");
    assert!(
        marker_ptr >= heap_start + APP_ZONE_HEADER_SIZE,
        "resource data must be allocated after the relocated zone header"
    );
    assert_eq!(runner.bus.read_bytes(marker_ptr, marker.len()), marker);

    runner.init_app(&app);

    assert_eq!(runner.bus.read_long(globals::APP_L_ZONE), heap_start);
    assert_eq!(
        runner.bus.read_long(globals::HEAP_END),
        heap_start + APP_ZONE_HEADER_SIZE
    );
    assert_eq!(
        runner.bus.read_bytes(marker_ptr, marker.len()),
        marker,
        "launch initialization must not clobber resources for large loaded images"
    );
}

#[test]
fn load_app_records_application_size_resource_id_minus_one() {
    let code0 = minimal_code0(0, 0x2000, 0, 0);
    let size = size_resource_bytes(0x0080, 0x0030_0000, 0x0020_0000);
    let fork_bytes = make_resource_fork_bytes(&[(*b"CODE", 0, &code0), (*b"SIZE", -1, &size)]);
    let fork = ResourceFork::parse(&fork_bytes).expect("parse synthetic app fork");
    let mut runner = FixtureRunner::new(8 * 1024 * 1024, FixtureRunnerConfig::default());

    let app = runner.load_app(&fork).expect("load app");

    assert_eq!(
        app.size_resource,
        Some(ApplicationSizeResource {
            flags: 0x0080,
            preferred_size: 0x0030_0000,
            minimum_size: 0x0020_0000,
        })
    );
}

#[test]
fn load_app_relocates_large_size_partition_a5_above_application_zone() {
    let minimum_partition = 4_812_800;
    let preferred_partition = 6_348_800;
    let below_a5 = 0x7AF4;
    let code0 = minimal_code0(0x11F8, below_a5, 0, 0);
    let size = size_resource_bytes(0x5880, preferred_partition, minimum_partition);
    let fork_bytes = make_resource_fork_bytes(&[(*b"CODE", 0, &code0), (*b"SIZE", -1, &size)]);
    let fork = ResourceFork::parse(&fork_bytes).expect("parse synthetic app fork");
    let mut runner = FixtureRunner::new(32 * 1024 * 1024, FixtureRunnerConfig::default());

    let app = runner.load_app(&fork).expect("load app");

    assert!(
        app_image_start_for_loaded_app(&app) > APP_HEAP_FLOOR + APP_ZONE_HEADER_SIZE,
        "relocated app image must leave room for the visible app-zone header"
    );
    assert!(
        app.a5_base - APP_HEAP_FLOOR >= minimum_partition - APP_STACK_SAFETY_MARGIN,
        "large SIZE partitions should place A5 high enough for direct A5-zone memory checks"
    );
    assert!(
        app.a5_base - APP_HEAP_FLOOR >= 750 * 1024,
        "Spectre-style startup gates compare A5 - GetZone against a 750K floor"
    );
}

#[test]
fn load_app_leaves_exact_2mb_size_partition_at_default_address() {
    let below_a5 = 0x68E8;
    let code0 = minimal_code0(0x0D18, below_a5, 0, 0);
    let size = size_resource_bytes(0x5880, 0x0020_0000, 0x0020_0000);
    let fork_bytes = make_resource_fork_bytes(&[(*b"CODE", 0, &code0), (*b"SIZE", -1, &size)]);
    let fork = ResourceFork::parse(&fork_bytes).expect("parse synthetic app fork");
    let mut runner = FixtureRunner::new(32 * 1024 * 1024, FixtureRunnerConfig::default());

    let app = runner.load_app(&fork).expect("load app");

    assert_eq!(app_image_start_for_loaded_app(&app), DEFAULT_LOAD_ADDRESS);
    assert_eq!(app.a5_base, DEFAULT_LOAD_ADDRESS + below_a5);
}

#[test]
fn load_app_patches_mpw_far_jump_table_offsets_from_segment_start() {
    // Inside Macintosh: Processes 1994, p. 7-8: a loaded MPW jump-table
    // entry keeps the routine offset from the beginning of the segment.
    let mut code0 = minimal_code0(40, 0x2000, 8, 32);
    code0[16..24].copy_from_slice(&[
        0x00, 0x01, // segment 1
        0xA9, 0xF0, // far-model unloaded LoadSeg trap
        0x00, 0x00, 0x00, 0x28, // first routine immediately after the far header
    ]);

    let mut code1 = vec![0u8; 0x30];
    code1[0] = 0xFF;
    code1[1] = 0xFF;
    code1[0x28] = 0x4E;
    code1[0x29] = 0x75;

    let fork_bytes = make_resource_fork_bytes(&[(*b"CODE", 0, &code0), (*b"CODE", 1, &code1)]);
    let fork = ResourceFork::parse(&fork_bytes).expect("parse synthetic app fork");
    let mut runner = FixtureRunner::new(8 * 1024 * 1024, FixtureRunnerConfig::default());

    let app = runner.load_app(&fork).expect("load app");
    let jt_base = app.a5_base + app.code0_header.jump_table_offset;
    let code1_base = app.segment_bases[&1];

    assert_eq!(runner.bus.read_word(jt_base), 1);
    assert_eq!(runner.bus.read_word(jt_base + 2), 0x4EF9);
    assert_eq!(
        runner.bus.read_long(jt_base + 4),
        code1_base + 0x28,
        "MPW far offsets must not be adjusted by the 40-byte header twice"
    );
}

#[test]
fn load_app_applies_mpw_far_a5_and_pc_relocations() {
    let mut code0 = minimal_code0(40, 0x2000, 8, 32);
    code0[16..24].copy_from_slice(&[
        0x00, 0x01, // segment 1
        0xA9, 0xF0, // far-model unloaded LoadSeg trap
        0x00, 0x00, 0x00, 0x28,
    ]);

    let mut code1 = vec![0u8; 0x60];
    code1[0..2].copy_from_slice(&0xFFFFu16.to_be_bytes());
    code1[20..24].copy_from_slice(&0x50u32.to_be_bytes());
    code1[28..32].copy_from_slice(&0x54u32.to_be_bytes());
    code1[0x28..0x2A].copy_from_slice(&[0x4E, 0xB9]); // JSR.L absolute
    code1[0x2A..0x2E].copy_from_slice(&0x100u32.to_be_bytes());
    code1[0x30..0x32].copy_from_slice(&[0x20, 0x79]); // MOVEA.L absolute
    code1[0x32..0x36].copy_from_slice(&0x40u32.to_be_bytes());
    code1[0x50..0x54].copy_from_slice(&[
        0x19, // A5 relocation at byte offset 0x32
        0x00, 0x00, 0x00,
    ]);
    code1[0x54..0x57].copy_from_slice(&[
        0x15, // PC relocation at byte offset 0x2A
        0x00, 0x00,
    ]);

    let fork_bytes = make_resource_fork_bytes(&[(*b"CODE", 0, &code0), (*b"CODE", 1, &code1)]);
    let fork = ResourceFork::parse(&fork_bytes).expect("parse synthetic app fork");
    let mut runner = FixtureRunner::new(8 * 1024 * 1024, FixtureRunnerConfig::default());

    let app = runner.load_app(&fork).expect("load app");
    let code1_base = app.segment_bases[&1];

    assert_eq!(
        runner.bus.read_long(code1_base + 0x2A),
        code1_base + 0x100,
        "PC relocation stream must add the loaded segment address"
    );
    assert_eq!(
        runner.bus.read_long(code1_base + 0x32),
        app.a5_base + 0x40,
        "A5 relocation stream must add the current A5"
    );
    assert_eq!(
        runner
            .bus
            .read_long(code1_base + MPW_CURRENT_A5_OFFSET),
        app.a5_base
    );
    assert_eq!(
        runner
            .bus
            .read_long(code1_base + MPW_LOAD_ADDRESS_OFFSET),
        code1_base
    );
}

use std::collections::HashMap;

use systemless::cpu::Register;
use systemless::globals;
use systemless::interrupts::CURSOR_TASK_NOOP_ADDR;
use systemless::loader::{ApplicationSizeResource, Code0Header, LoadedApp, app_heap_start_for_loaded_app};
use systemless::resource::{ResourceFork, four_char};
use systemless::runner::{APP_HEAP_FLOOR, APP_STACK_SAFETY_MARGIN, APP_ZONE_HEADER_SIZE, FixtureRunner, FixtureRunnerConfig};
use systemless::startup::{APPLICATION_RESOURCE_REFNUM, BOOT_VOLUME_REF_NUM, DEFAULT_DOUBLE_TIME_TICKS, DEFAULT_LAUNCH_TICKS, HFS_FCB_BUFFER_SIZE, HFS_FCB_SIZE};

fn make_resource_fork_bytes(resources: &[([u8; 4], i16, &[u8])]) -> Vec<u8> {
    let mut type_groups: Vec<([u8; 4], Vec<(i16, &[u8], u32)>)> = Vec::new();
    for (res_type, res_id, data) in resources {
        let group_idx = type_groups
            .iter()
            .position(|(existing_type, _)| existing_type == res_type)
            .unwrap_or_else(|| {
                type_groups.push((*res_type, Vec::new()));
                type_groups.len() - 1
            });
        type_groups[group_idx].1.push((*res_id, *data, 0));
    }
    type_groups.sort_by_key(|(res_type, _)| *res_type);
    for (_, entries) in &mut type_groups {
        entries.sort_by_key(|(res_id, _, _)| *res_id);
    }

    let data_offset = 16u32;
    let mut data_section = Vec::new();
    for (_, entries) in &mut type_groups {
        for (_, data, data_pos) in entries {
            *data_pos = data_section.len() as u32;
            data_section.extend_from_slice(&(data.len() as u32).to_be_bytes());
            data_section.extend_from_slice(data);
        }
    }

    let map_offset = data_offset + data_section.len() as u32;
    let type_list_offset = 30u16;
    let type_count = type_groups.len();
    let resource_count: usize = type_groups.iter().map(|(_, entries)| entries.len()).sum();
    let ref_lists_offset = 2 + type_count * 8;
    let name_list_offset = type_list_offset as usize + ref_lists_offset + resource_count * 12;
    let map_length = name_list_offset as u32;

    let mut bytes = vec![0u8; (map_offset + map_length) as usize];
    let mut header = [0u8; 16];
    header[0..4].copy_from_slice(&data_offset.to_be_bytes());
    header[4..8].copy_from_slice(&map_offset.to_be_bytes());
    header[8..12].copy_from_slice(&(data_section.len() as u32).to_be_bytes());
    header[12..16].copy_from_slice(&map_length.to_be_bytes());
    bytes[0..16].copy_from_slice(&header);
    bytes[data_offset as usize..data_offset as usize + data_section.len()]
        .copy_from_slice(&data_section);

    let map_start = map_offset as usize;
    bytes[map_start..map_start + 16].copy_from_slice(&header);
    bytes[map_start + 24..map_start + 26].copy_from_slice(&type_list_offset.to_be_bytes());
    bytes[map_start + 26..map_start + 28]
        .copy_from_slice(&(name_list_offset as u16).to_be_bytes());
    bytes[map_start + 28..map_start + 30]
        .copy_from_slice(&((type_count as u16) - 1).to_be_bytes());

    let type_list_start = map_start + type_list_offset as usize;
    bytes[type_list_start..type_list_start + 2]
        .copy_from_slice(&((type_count as u16) - 1).to_be_bytes());
    let mut next_ref_list_offset = ref_lists_offset;
    for (i, (res_type, entries)) in type_groups.iter().enumerate() {
        let type_entry = type_list_start + 2 + i * 8;
        bytes[type_entry..type_entry + 4].copy_from_slice(res_type);
        bytes[type_entry + 4..type_entry + 6]
            .copy_from_slice(&((entries.len() as u16) - 1).to_be_bytes());
        bytes[type_entry + 6..type_entry + 8]
            .copy_from_slice(&(next_ref_list_offset as u16).to_be_bytes());

        let ref_list_start = type_list_start + next_ref_list_offset;
        for (j, (res_id, _, data_pos)) in entries.iter().enumerate() {
            let ref_entry = ref_list_start + j * 12;
            bytes[ref_entry..ref_entry + 2].copy_from_slice(&(*res_id as u16).to_be_bytes());
            bytes[ref_entry + 2..ref_entry + 4].copy_from_slice(&0xFFFFu16.to_be_bytes());
            bytes[ref_entry + 4] = 0;
            let data_offset_bytes = data_pos.to_be_bytes();
            bytes[ref_entry + 5..ref_entry + 8].copy_from_slice(&data_offset_bytes[1..4]);
        }

        next_ref_list_offset += entries.len() * 12;
    }

    bytes
}

fn minimal_code0(above_a5: u32, below_a5: u32, jt_size: u32, jt_offset: u32) -> Vec<u8> {
    let mut code0 = Vec::with_capacity(16 + jt_size as usize);
    code0.extend_from_slice(&above_a5.to_be_bytes());
    code0.extend_from_slice(&below_a5.to_be_bytes());
    code0.extend_from_slice(&jt_size.to_be_bytes());
    code0.extend_from_slice(&jt_offset.to_be_bytes());
    code0.resize(16 + jt_size as usize, 0);
    code0
}

fn size_resource_bytes(flags: u16, preferred_size: u32, minimum_size: u32) -> Vec<u8> {
    let mut size = Vec::with_capacity(10);
    size.extend_from_slice(&flags.to_be_bytes());
    size.extend_from_slice(&preferred_size.to_be_bytes());
    size.extend_from_slice(&minimum_size.to_be_bytes());
    size
}

#[test]
fn init_app_preserves_resources_allocated_before_zone_header() {
    let code0 = minimal_code0(0, 0x2000, 0, 0);
    let bgas = [0x4E, 0x56, 0xFF, 0xA6, 0x2D, 0x7A, 0x1C, 0x72];
    let fork_bytes = make_resource_fork_bytes(&[(*b"BGAS", 128, &bgas), (*b"CODE", 0, &code0)]);
    let fork = ResourceFork::parse(&fork_bytes).expect("parse synthetic app fork");
    let mut runner = FixtureRunner::new(8 * 1024 * 1024, FixtureRunnerConfig::default());

    let app = runner.load_app(&fork).expect("load app");
    let (_, bgas_ptr) = runner
        .dispatcher
        .resources.find_resource_any(*b"BGAS", 128)
        .expect("BGAS resource loaded");
    assert_eq!(runner.bus.read_bytes(bgas_ptr, bgas.len()), bgas);

    runner.init_app(&app);

    assert_eq!(
        runner.bus.read_bytes(bgas_ptr, bgas.len()),
        bgas,
        "init_app must not overwrite resources loaded before zone setup"
    );
}

#[test]
fn init_app_seeds_post_boot_ticks() {
    let code0 = minimal_code0(0, 0x2000, 0, 0);
    let fork_bytes = make_resource_fork_bytes(&[(*b"CODE", 0, &code0)]);
    let fork = ResourceFork::parse(&fork_bytes).expect("parse synthetic app fork");
    let mut runner = FixtureRunner::new(8 * 1024 * 1024, FixtureRunnerConfig::default());

    let app = runner.load_app(&fork).expect("load app");
    runner.init_app(&app);

    assert_eq!(
        runner.bus.read_long(globals::TICKS),
        DEFAULT_LAUNCH_TICKS,
        "fresh app launch should see a realistic nonzero post-boot TickCount"
    );
    assert_eq!(
        runner.dispatcher.tick_count, DEFAULT_LAUNCH_TICKS,
        "TickCount fast path must stay in sync with low-memory Ticks"
    );
}

#[test]
fn init_app_seeds_classic_double_click_interval() {
    let code0 = minimal_code0(0, 0x2000, 0, 0);
    let fork_bytes = make_resource_fork_bytes(&[(*b"CODE", 0, &code0)]);
    let fork = ResourceFork::parse(&fork_bytes).expect("parse synthetic app fork");
    let mut runner = FixtureRunner::new(8 * 1024 * 1024, FixtureRunnerConfig::default());

    let app = runner.load_app(&fork).expect("load app");
    runner.init_app(&app);

    assert_eq!(
        runner.bus.read_long(globals::DOUBLE_TIME),
        DEFAULT_DOUBLE_TIME_TICKS,
        "a zero DoubleTime makes every application-level double-click test fail"
    );
}

#[test]
fn init_app_exposes_low_visible_zone_for_relocated_size_partition() {
    let minimum_partition = 4_812_800;
    let preferred_partition = 6_348_800;
    let below_a5 = 0x7AF4;
    let code0 = minimal_code0(0x11F8, below_a5, 0, 0);
    let marker = [0xCA, 0xFE, 0xBA, 0xBE, 0x12, 0x34, 0x56, 0x78];
    let size = size_resource_bytes(0x5880, preferred_partition, minimum_partition);
    let fork_bytes = make_resource_fork_bytes(&[
        (*b"BGAS", 128, &marker),
        (*b"CODE", 0, &code0),
        (*b"SIZE", -1, &size),
    ]);
    let fork = ResourceFork::parse(&fork_bytes).expect("parse synthetic app fork");
    let mut runner = FixtureRunner::new(32 * 1024 * 1024, FixtureRunnerConfig::default());

    let app = runner.load_app(&fork).expect("load app");
    let allocation_heap_start = app_heap_start_for_loaded_app(&app);
    let (_, marker_ptr) = runner
        .dispatcher
        .resources.find_resource_any(*b"BGAS", 128)
        .expect("BGAS resource loaded");
    assert!(
        marker_ptr >= allocation_heap_start + APP_ZONE_HEADER_SIZE,
        "preloaded resources must still allocate above the relocated image"
    );

    runner.init_app(&app);

    assert_eq!(runner.bus.read_long(globals::APP_L_ZONE), APP_HEAP_FLOOR);
    assert_eq!(runner.bus.read_long(globals::THE_ZONE), APP_HEAP_FLOOR);
    assert_eq!(
        runner.bus.read_long(globals::HEAP_END),
        APP_HEAP_FLOOR + APP_ZONE_HEADER_SIZE
    );
    assert_eq!(
        runner.bus.read_long(APP_HEAP_FLOOR),
        runner.bus.read_long(globals::APPL_LIMIT)
    );
    assert!(
        app.a5_base - runner.bus.read_long(globals::THE_ZONE) >= 750 * 1024,
        "GetZone-visible partition span should satisfy direct startup memory gates"
    );
    assert_eq!(runner.bus.read_bytes(marker_ptr, marker.len()), marker);
}

#[test]
fn init_app_seeds_top_of_stack_with_nonzero_bytes() {
    let mut runner = FixtureRunner::new(8 * 1024 * 1024, FixtureRunnerConfig::default());
    let app = LoadedApp {
        code0_header: Code0Header {
            above_a5: 0,
            below_a5: 0x2000,
            jump_table_size: 0,
            jump_table_offset: 0,
        },
        a5_base: 0x0040_0000,
        jump_table: Vec::new(),
        segment_bases: HashMap::new(),
        loaded_image_end: 0,
        initial_sp: 0x007F_FFC0,
        size_resource: None,
    };

    runner.init_app(&app);

    let stack_seed_start = app.initial_sp.saturating_sub(0x8000);
    assert_eq!(
        runner.bus.read_long(stack_seed_start),
        0xA5A5_A5A5,
        "top-of-stack window must not be zeroed"
    );
}

#[test]
fn init_app_leaves_application_heap_room_below_appllimit() {
    let mut runner = FixtureRunner::new(8 * 1024 * 1024, FixtureRunnerConfig::default());
    let app = LoadedApp {
        code0_header: Code0Header {
            above_a5: 0,
            below_a5: 0x2000,
            jump_table_size: 0,
            jump_table_offset: 0,
        },
        a5_base: 0x0040_0000,
        jump_table: Vec::new(),
        segment_bases: HashMap::new(),
        loaded_image_end: 0,
        initial_sp: 0x007F_FFC0,
        size_resource: None,
    };

    runner.init_app(&app);

    let heap_end = runner.bus.read_long(globals::HEAP_END);
    let appl_limit = runner.bus.read_long(globals::APPL_LIMIT);
    assert_eq!(
        heap_end,
        0x0020_0000 + APP_ZONE_HEADER_SIZE,
        "HeapEnd should expose the initial application-zone extent"
    );
    assert!(
        appl_limit.saturating_sub(heap_end) >= 2300 * 1024,
        "direct low-memory startup checks should see growable heap room below ApplLimit"
    );
}

#[test]
fn init_app_honors_size_resource_preferred_partition_for_heap_reporting() {
    let mut runner = FixtureRunner::new(8 * 1024 * 1024, FixtureRunnerConfig::default());
    let preferred_partition = 3 * 1024 * 1024;
    let app = LoadedApp {
        code0_header: Code0Header {
            above_a5: 0,
            below_a5: 0x2000,
            jump_table_size: 0,
            jump_table_offset: 0,
        },
        a5_base: 0x0040_0000,
        jump_table: Vec::new(),
        segment_bases: HashMap::new(),
        loaded_image_end: 0,
        initial_sp: 0x007F_FFC0,
        size_resource: Some(ApplicationSizeResource {
            flags: 0x0080,
            preferred_size: preferred_partition,
            minimum_size: 2 * 1024 * 1024,
        }),
    };

    runner.init_app(&app);

    let expected_limit = 0x0020_0000 + preferred_partition - APP_STACK_SAFETY_MARGIN;
    let expected_free = expected_limit - (0x0020_0000 + APP_ZONE_HEADER_SIZE);
    assert_eq!(runner.bus.read_long(globals::APPL_LIMIT), expected_limit);
    assert_eq!(runner.bus.read_long(globals::BUF_PTR), expected_limit);
    assert_eq!(runner.bus.read_long(0x0020_0000), expected_limit);
    assert_eq!(runner.bus.read_long(0x0020_0000 + 12), expected_free);
}

#[test]
fn init_app_application_partition_override_takes_precedence_over_size_resource() {
    let mut runner = FixtureRunner::new(8 * 1024 * 1024, FixtureRunnerConfig::default());
    let size_partition = 3 * 1024 * 1024;
    let override_partition = 4 * 1024 * 1024;
    runner.set_application_partition_size(Some(override_partition));
    let app = LoadedApp {
        code0_header: Code0Header {
            above_a5: 0,
            below_a5: 0x2000,
            jump_table_size: 0,
            jump_table_offset: 0,
        },
        a5_base: 0x0040_0000,
        jump_table: Vec::new(),
        segment_bases: HashMap::new(),
        loaded_image_end: 0,
        initial_sp: 0x007F_FFC0,
        size_resource: Some(ApplicationSizeResource {
            flags: 0x0080,
            preferred_size: size_partition,
            minimum_size: 2 * 1024 * 1024,
        }),
    };

    runner.init_app(&app);

    let expected_limit = 0x0020_0000 + override_partition - APP_STACK_SAFETY_MARGIN;
    assert_eq!(runner.bus.read_long(globals::APPL_LIMIT), expected_limit);
    assert_eq!(
        runner.bus().read_long(0x0020_0000 + 12),
        expected_limit - (0x0020_0000 + APP_ZONE_HEADER_SIZE)
    );
}

#[test]
fn init_app_ignores_too_small_application_partition_override() {
    let mut runner = FixtureRunner::new(8 * 1024 * 1024, FixtureRunnerConfig::default());
    runner.set_application_partition_size(Some(64 * 1024));
    assert_eq!(runner.application_partition_size(), None);
    let app = LoadedApp {
        code0_header: Code0Header {
            above_a5: 0,
            below_a5: 0x2000,
            jump_table_size: 0,
            jump_table_offset: 0,
        },
        a5_base: 0x0040_0000,
        jump_table: Vec::new(),
        segment_bases: HashMap::new(),
        loaded_image_end: 0,
        initial_sp: 0x007F_FFC0,
        size_resource: None,
    };

    runner.init_app(&app);

    assert_eq!(
        runner.bus.read_long(globals::APPL_LIMIT),
        app.initial_sp - APP_STACK_SAFETY_MARGIN,
        "invalid tiny overrides must fall back to the default launch limit"
    );
}

#[test]
fn init_app_seeds_appparmhandle_with_empty_finder_information() {
    let mut runner = FixtureRunner::new(8 * 1024 * 1024, FixtureRunnerConfig::default());
    runner
        .dispatcher_mut()
        .set_launched_app_path("Games/Armor Alley");
    let app = LoadedApp {
        code0_header: Code0Header {
            above_a5: 0,
            below_a5: 0x2000,
            jump_table_size: 0,
            jump_table_offset: 0,
        },
        a5_base: 0x0040_0000,
        jump_table: Vec::new(),
        segment_bases: HashMap::new(),
        loaded_image_end: 0,
        initial_sp: 0x007F_FFC0,
        size_resource: None,
    };

    runner.init_app(&app);

    let handle = runner.bus.read_long(globals::APP_PARM_HANDLE);
    assert_ne!(
        handle, 0,
        "AppParmHandle should point at Finder launch information"
    );
    let data_ptr = runner.bus.read_long(handle);
    assert_ne!(
        data_ptr, 0,
        "Finder launch information handle should be loaded"
    );
    assert_eq!(
        runner.bus.get_alloc_size(data_ptr),
        Some(4),
        "empty Finder launch information is message/count only"
    );
    assert_eq!(
        runner.bus.read_word(data_ptr),
        0,
        "message should be appOpen for a normal application launch"
    );
    assert_eq!(
        runner.bus.read_word(data_ptr + 2),
        0,
        "normal application launch has no selected documents"
    );
}

#[test]
fn init_app_seeds_current_application_fcb_low_memory_state() {
    let mut runner = FixtureRunner::new(8 * 1024 * 1024, FixtureRunnerConfig::default());
    runner
        .dispatcher_mut()
        .files.vfs.set_resource("Games/Armor Alley", vec![0xA5; 1234]);
    runner
        .dispatcher_mut()
        .files.vfs.set_entry_metadata("Games/Armor Alley", four_char(*b"APPL"), four_char(*b"TEST"), 0);
    runner
        .dispatcher_mut()
        .set_launched_app_path("Games/Armor Alley");
    let app = LoadedApp {
        code0_header: Code0Header {
            above_a5: 0,
            below_a5: 0x2000,
            jump_table_size: 0,
            jump_table_offset: 0,
        },
        a5_base: 0x0040_0000,
        jump_table: Vec::new(),
        segment_bases: HashMap::new(),
        loaded_image_end: 0,
        initial_sp: 0x007F_FFC0,
        size_resource: None,
    };

    runner.init_app(&app);

    assert_eq!(
        runner.bus.read_word(globals::CUR_APREF_NUM),
        APPLICATION_RESOURCE_REFNUM,
        "CurApRefNum should be the app resource fork access path"
    );
    assert_eq!(
        runner.bus.read_word(globals::FS_FCB_LEN),
        HFS_FCB_SIZE,
        "System 7 FCB size should be exposed for direct low-memory readers"
    );
    let fcb_buffer = runner.bus.read_long(globals::FCB_S_PTR);
    assert_ne!(fcb_buffer, 0, "FCBSPtr should point to an FCB buffer");
    assert_eq!(
        runner.bus.read_word(fcb_buffer),
        HFS_FCB_BUFFER_SIZE,
        "FCB buffer length should include the leading length word"
    );
    let fcb = fcb_buffer + APPLICATION_RESOURCE_REFNUM as u32;
    assert_eq!(
        runner.bus.read_word(fcb + 4),
        0x0200,
        "the application access path should describe a resource fork"
    );
    assert_eq!(runner.bus.read_long(fcb + 8), 1234);
    assert_eq!(runner.bus.read_long(fcb + 12), 1234);
    assert_eq!(runner.bus.read_long(fcb + 50), u32::from_be_bytes(*b"APPL"));
    assert_eq!(
        runner.bus.read_long(fcb + 58),
        runner.dispatcher.files.default_dir()
    );

    let vcb = runner.bus.read_long(fcb + 20);
    assert_ne!(vcb, 0, "fcbVPtr should point to the boot volume VCB");
    assert_eq!(runner.bus.read_long(globals::DEF_VCB_PTR), vcb);
    assert_eq!(runner.bus.read_long(globals::VCB_Q_HDR + 2), vcb);
    assert_eq!(runner.bus.read_long(globals::VCB_Q_HDR + 6), vcb);
    assert_eq!(runner.bus.read_word(vcb + 8), 0x4244);
    assert_eq!(
        runner.bus.read_word(vcb + 78) as i16,
        BOOT_VOLUME_REF_NUM
    );
    assert_eq!(
        runner.dispatcher.files.open_path(APPLICATION_RESOURCE_REFNUM),
        Some("__rsrc__Games/Armor Alley".to_string())
    );
}

#[test]
fn init_app_sets_legacy_sound_driver_low_memory_defaults() {
    let mut runner = FixtureRunner::new(8 * 1024 * 1024, FixtureRunnerConfig::default());
    let app = LoadedApp {
        code0_header: Code0Header {
            above_a5: 0,
            below_a5: 0x2000,
            jump_table_size: 0,
            jump_table_offset: 0,
        },
        a5_base: 0x0040_0000,
        jump_table: Vec::new(),
        segment_bases: HashMap::new(),
        loaded_image_end: 0,
        initial_sp: 0x007F_FFC0,
        size_resource: None,
    };

    runner.init_app(&app);

    assert_eq!(
        runner
            .bus
            .read_byte(globals::SD_VOLUME),
        1,
        "SdVolume ($0260) should boot to the nonzero legacy compatibility value"
    );
    assert_eq!(
        runner
            .bus
            .read_byte(globals::SOUND_LEVEL),
        0,
        "SoundLevel ($027F) is a distinct Sound Driver amplitude byte"
    );
    let sound_base = runner
            .bus
            .read_long(globals::SOUND_BASE);
    assert_eq!(
        sound_base, 0x007F_5300,
        "SoundBase ($0266) should point at the 370-word legacy sound buffer in reserved display memory"
    );
    assert_eq!(
        runner.bus.read_byte(sound_base),
        0x80,
        "legacy SoundBase buffer starts at neutral amplitude"
    );
}

#[test]
fn init_app_seeds_mmu32bit_low_memory_flag() {
    let mut runner = FixtureRunner::new(8 * 1024 * 1024, FixtureRunnerConfig::default());
    let app = LoadedApp {
        code0_header: Code0Header {
            above_a5: 0,
            below_a5: 0x2000,
            jump_table_size: 0,
            jump_table_offset: 0,
        },
        a5_base: 0x0040_0000,
        jump_table: Vec::new(),
        segment_bases: HashMap::new(),
        loaded_image_end: 0,
        initial_sp: 0x007F_FFC0,
        size_resource: None,
    };

    runner.init_app(&app);

    assert_eq!(
        runner
            .bus
            .read_byte(globals::MMU32_BIT),
        1,
        "MMU32Bit ($0CB2) should mirror Systemless's default 32-bit addressing mode"
    );
}

#[test]
fn init_app_seeds_callable_swap_mmu_mode_trap_table_entry() {
    let mut runner = FixtureRunner::new(8 * 1024 * 1024, FixtureRunnerConfig::default());
    let app = LoadedApp {
        code0_header: Code0Header {
            above_a5: 0,
            below_a5: 0x2000,
            jump_table_size: 0,
            jump_table_offset: 0,
        },
        a5_base: 0x0040_0000,
        jump_table: Vec::new(),
        segment_bases: HashMap::new(),
        loaded_image_end: 0,
        initial_sp: 0x007F_FFC0,
        size_resource: None,
    };
    runner.init_app(&app);

    let entry = runner
            .bus
            .read_long(globals::SWAP_MMU_MODE_TRAP);
    assert_ne!(entry, 0);
    assert_eq!(
        [runner.bus.read_word(entry), runner.bus.read_word(entry + 2),],
        [0xA05D, 0x4E75],
        "the $0574 OS trap-table entry should target SwapMMUMode followed by RTS"
    );

    let call_site = 0x0002_0000u32;
    let initial_sp = 0x007F_FE00u32;
    runner.bus.write_word(call_site, 0x2078); // MOVEA.L ($0574).W,A0
    runner.bus.write_word(call_site + 2, 0x0574);
    runner.bus.write_word(call_site + 4, 0x4E90); // JSR (A0)
    runner.bus.write_word(call_site + 6, 0x4E71); // NOP
    runner.cpu.write_reg(Register::PC, call_site);
    runner.cpu.write_reg(Register::A7, initial_sp);
    runner.cpu.write_reg(Register::D0, 0);

    let (steps, running) = runner.run_steps(4, None);

    assert!(running);
    assert_eq!(steps, 4);
    assert_eq!(runner.cpu.read_reg(Register::PC), call_site + 6);
    assert_eq!(runner.cpu.read_reg(Register::A7), initial_sp);
    assert_eq!(
        runner.cpu.read_reg(Register::D0),
        1,
        "SwapMMUMode should return the previous 32-bit mode in D0"
    );
    assert_eq!(
        runner
            .bus
            .read_byte(globals::MMU32_BIT),
        0,
        "the indirect call should update the requested addressing mode"
    );
}

#[test]
fn init_app_seeds_cursor_task_low_memory_vector() {
    let mut runner = FixtureRunner::new(8 * 1024 * 1024, FixtureRunnerConfig::default());
    let app = LoadedApp {
        code0_header: Code0Header {
            above_a5: 0,
            below_a5: 0x2000,
            jump_table_size: 0,
            jump_table_offset: 0,
        },
        a5_base: 0x0040_0000,
        jump_table: Vec::new(),
        segment_bases: HashMap::new(),
        loaded_image_end: 0,
        initial_sp: 0x007F_FFC0,
        size_resource: None,
    };

    runner.init_app(&app);

    assert_eq!(
        runner.bus.read_word(CURSOR_TASK_NOOP_ADDR),
        0x4E75,
        "default cursor task target should be a callable RTS stub"
    );
    assert_eq!(
        runner
            .bus
            .read_long(globals::J_CRSR_TASK),
        CURSOR_TASK_NOOP_ADDR,
        "JCrsrTask ($08EE) should boot to a callable no-op vector"
    );
}

#[test]
fn init_app_seeds_callable_show_cursor_low_memory_vector() {
    let mut runner = FixtureRunner::new(8 * 1024 * 1024, FixtureRunnerConfig::default());
    let app = LoadedApp {
        code0_header: Code0Header {
            above_a5: 0,
            below_a5: 0x2000,
            jump_table_size: 0,
            jump_table_offset: 0,
        },
        a5_base: 0x0040_0000,
        jump_table: Vec::new(),
        segment_bases: HashMap::new(),
        loaded_image_end: 0,
        initial_sp: 0x007F_FFC0,
        size_resource: None,
    };
    runner.init_app(&app);

    let entry = runner
            .bus
            .read_long(globals::J_SHOW_CURSOR);
    assert_ne!(entry, 0);
    assert_eq!(
        [
            runner.bus.read_word(entry),
            runner.bus.read_word(entry + 2),
        ],
        [0xA853, 0x4E75],
        "JShowCursor should target ShowCursor followed by RTS"
    );

    let call_site = 0x0002_0000u32;
    let initial_sp = 0x007F_FE00u32;
    runner.bus.write_word(call_site, 0x2078); // MOVEA.L ($0804).W,A0
    runner.bus.write_word(call_site + 2, 0x0804);
    runner.bus.write_word(call_site + 4, 0x4E90); // JSR (A0)
    runner.bus.write_word(call_site + 6, 0x4E71); // NOP
    runner.cpu.write_reg(Register::PC, call_site);
    runner.cpu.write_reg(Register::A7, initial_sp);
    runner.dispatcher.cursor_level = -1;

    let (steps, running) = runner.run_steps(4, None);

    assert!(running);
    assert_eq!(steps, 4);
    assert_eq!(runner.cpu.read_reg(Register::PC), call_site + 6);
    assert_eq!(runner.cpu.read_reg(Register::A7), initial_sp);
    assert_eq!(runner.dispatcher.cursor_level(), 0);
    assert!(runner.dispatcher.cursor_visible());
}

#[test]
fn init_app_seeds_callable_swap_font_low_memory_vector() {
    let mut runner = FixtureRunner::new(8 * 1024 * 1024, FixtureRunnerConfig::default());
    let app = LoadedApp {
        code0_header: Code0Header {
            above_a5: 0,
            below_a5: 0x2000,
            jump_table_size: 0,
            jump_table_offset: 0,
        },
        a5_base: 0x0040_0000,
        jump_table: Vec::new(),
        segment_bases: HashMap::new(),
        loaded_image_end: 0,
        initial_sp: 0x007F_FFC0,
        size_resource: None,
    };
    runner.init_app(&app);

    let swap_font_trampoline = runner
            .bus
            .read_long(globals::J_SWAP_FONT);
    assert_ne!(swap_font_trampoline, 0);
    assert_eq!(
        [
            runner.bus.read_word(swap_font_trampoline),
            runner.bus.read_word(swap_font_trampoline + 2),
            runner.bus.read_word(swap_font_trampoline + 4),
        ],
        [0x205F, 0xA901, 0x4ED0]
    );

    let fm_input_sp = 0x007F_FE00u32;
    let fm_input = 0x0002_1000u32;
    let return_pc = 0x0002_0000u32;
    runner.bus.write_word(fm_input, 3); // family
    runner.bus.write_word(fm_input + 2, 12); // size
    runner.bus.write_byte(fm_input + 4, 0); // face
    runner.bus.write_byte(fm_input + 5, 1); // needBits
    runner.bus.write_word(fm_input + 6, 0); // device
    runner.bus.write_word(fm_input + 8, 1); // numer.v
    runner.bus.write_word(fm_input + 10, 1); // numer.h
    runner.bus.write_word(fm_input + 12, 1); // denom.v
    runner.bus.write_word(fm_input + 14, 1); // denom.h
    runner.bus.write_long(fm_input_sp, fm_input); // CONST VAR inRec
    runner.bus.write_long(fm_input_sp + 4, 0); // result slot
    runner.bus.write_long(fm_input_sp - 4, return_pc);
    runner.bus.write_word(return_pc, 0x4E71); // NOP
    runner.cpu.write_reg(Register::PC, swap_font_trampoline);
    runner.cpu.write_reg(Register::A7, fm_input_sp - 4);

    let (steps, running) = runner.run_steps(3, None);

    assert!(running);
    assert_eq!(steps, 3);
    assert_eq!(runner.cpu.read_reg(Register::PC), return_pc);
    assert_eq!(runner.cpu.read_reg(Register::A7), fm_input_sp + 4);
    assert_ne!(
        runner.bus.read_long(fm_input_sp + 4),
        0,
        "JSwapFont should return a non-NIL FMOutPtr through the Pascal result slot"
    );
}

#[test]
fn init_app_seeds_callable_shield_cursor_low_memory_vector() {
    let mut runner = FixtureRunner::new(8 * 1024 * 1024, FixtureRunnerConfig::default());
    let app = LoadedApp {
        code0_header: Code0Header {
            above_a5: 0,
            below_a5: 0x2000,
            jump_table_size: 0,
            jump_table_offset: 0,
        },
        a5_base: 0x0040_0000,
        jump_table: Vec::new(),
        segment_bases: HashMap::new(),
        loaded_image_end: 0,
        initial_sp: 0x007F_FFC0,
        size_resource: None,
    };
    runner.init_app(&app);

    let shield_cursor_trampoline = runner
            .bus
            .read_long(globals::J_SHIELD_CURSOR);
    assert_ne!(shield_cursor_trampoline, 0);
    assert_eq!(
        [
            runner.bus.read_word(shield_cursor_trampoline),
            runner.bus.read_word(shield_cursor_trampoline + 2),
            runner.bus.read_word(shield_cursor_trampoline + 4),
        ],
        [0x205F, 0xA855, 0x4ED0]
    );

    let args_sp = 0x007F_FE00u32;
    let return_pc = 0x0002_0000u32;
    runner.bus.write_word(args_sp, 100); // left
    runner.bus.write_word(args_sp + 2, 120); // top
    runner.bus.write_word(args_sp + 4, 500); // right
    runner.bus.write_word(args_sp + 6, 420); // bottom
    runner.bus.write_long(args_sp - 4, return_pc);
    runner.bus.write_word(return_pc, 0x4E71); // NOP
    runner.cpu.write_reg(Register::PC, shield_cursor_trampoline);
    runner.cpu.write_reg(Register::A7, args_sp - 4);

    let (steps, running) = runner.run_steps(3, None);

    assert!(running);
    assert_eq!(steps, 3);
    assert_eq!(runner.cpu.read_reg(Register::PC), return_pc);
    assert_eq!(
        runner.cpu.read_reg(Register::A7),
        args_sp + 8,
        "JShieldCursor should consume its four Pascal INTEGER arguments"
    );
}

#[test]
fn init_app_seeds_callable_hide_cursor_low_memory_vector() {
    let mut runner = FixtureRunner::new(8 * 1024 * 1024, FixtureRunnerConfig::default());
    let app = LoadedApp {
        code0_header: Code0Header {
            above_a5: 0,
            below_a5: 0x2000,
            jump_table_size: 0,
            jump_table_offset: 0,
        },
        a5_base: 0x0040_0000,
        jump_table: Vec::new(),
        segment_bases: HashMap::new(),
        loaded_image_end: 0,
        initial_sp: 0x007F_FFC0,
        size_resource: None,
    };
    runner.init_app(&app);

    let hide_cursor_trampoline = runner
            .bus
            .read_long(globals::J_HIDE_CURSOR);
    assert_ne!(hide_cursor_trampoline, 0);
    assert_eq!(
        [
            runner.bus.read_word(hide_cursor_trampoline),
            runner.bus.read_word(hide_cursor_trampoline + 2),
            runner.bus.read_word(hide_cursor_trampoline + 4),
        ],
        [0x205F, 0xA852, 0x4ED0],
        "JHideCursor should pop the JSR return address, trap, and jump back"
    );

    let call_sp = 0x007F_FE00u32;
    let return_pc = 0x0002_0000u32;
    runner.bus.write_long(call_sp - 4, return_pc);
    runner.bus.write_word(return_pc, 0x4E71); // NOP
    runner.cpu.write_reg(Register::PC, hide_cursor_trampoline);
    runner.cpu.write_reg(Register::A7, call_sp - 4);

    let (steps, running) = runner.run_steps(3, None);

    assert!(running);
    assert_eq!(steps, 3);
    assert_eq!(runner.cpu.read_reg(Register::PC), return_pc);
    assert_eq!(
        runner.cpu.read_reg(Register::A7),
        call_sp,
        "JHideCursor takes no arguments and must restore the caller stack"
    );
    assert_eq!(runner.dispatcher().cursor_level(), -1);
}

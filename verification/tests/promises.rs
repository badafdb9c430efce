use systemless::cpu::{CpuExit, M68kCpu, Register, StepResult};
use systemless::disassembly::{disassembly_line, LARGEST_INSTRUCTION, LEAST_INSTRUCTION};
use systemless::events::TimerTask;
use systemless::globals::{KEY_MAP_LM, MOUSE, M_TEMP, RAW_MOUSE, TICKS};
use systemless::memory::MacMemoryBus;
use systemless::resource::{four_char, ResourceFork};
use systemless::runner::{ActiveInterruptCallbackSource, FixtureRunner, FixtureRunnerConfig};
use systemless::standard_file::StandardFileDialogRequest;
use systemless::vfs::VfsFileSnapshot;

fn make_resource_fork_bytes(resources: &[([u8; 4], i16, &[u8])]) -> Vec<u8> {
    let mut type_groups: Vec<([u8; 4], Vec<(i16, &[u8], u32)>)> = Vec::new();
    for (res_type, res_id, data) in resources {
        let group_idx = type_groups
            .iter()
            .position(|(existing_type, _)| existing_type == res_type)
            .unwrap_or_else(|| {
                type_groups.push((*res_type, Vec::new()));
                type_groups.len() - 1
            });
        type_groups[group_idx].1.push((*res_id, *data, 0));
    }
    type_groups.sort_by_key(|(res_type, _)| *res_type);
    for (_, entries) in &mut type_groups {
        entries.sort_by_key(|(res_id, _, _)| *res_id);
    }

    let data_offset = 16u32;
    let mut data_section = Vec::new();
    for (_, entries) in &mut type_groups {
        for (_, data, data_pos) in entries {
            *data_pos = data_section.len() as u32;
            data_section.extend_from_slice(&(data.len() as u32).to_be_bytes());
            data_section.extend_from_slice(data);
        }
    }

    let map_offset = data_offset + data_section.len() as u32;
    let type_list_offset = 30u16;
    let type_count = type_groups.len();
    let resource_count: usize = type_groups.iter().map(|(_, entries)| entries.len()).sum();
    let ref_lists_offset = 2 + type_count * 8;
    let name_list_offset = type_list_offset as usize + ref_lists_offset + resource_count * 12;
    let map_length = name_list_offset as u32;

    let mut bytes = vec![0u8; (map_offset + map_length) as usize];
    let mut header = [0u8; 16];
    header[0..4].copy_from_slice(&data_offset.to_be_bytes());
    header[4..8].copy_from_slice(&map_offset.to_be_bytes());
    header[8..12].copy_from_slice(&(data_section.len() as u32).to_be_bytes());
    header[12..16].copy_from_slice(&map_length.to_be_bytes());
    bytes[0..16].copy_from_slice(&header);
    bytes[data_offset as usize..data_offset as usize + data_section.len()]
        .copy_from_slice(&data_section);

    let map_start = map_offset as usize;
    bytes[map_start..map_start + 16].copy_from_slice(&header);
    bytes[map_start + 24..map_start + 26].copy_from_slice(&type_list_offset.to_be_bytes());
    bytes[map_start + 26..map_start + 28]
        .copy_from_slice(&(name_list_offset as u16).to_be_bytes());
    bytes[map_start + 28..map_start + 30]
        .copy_from_slice(&((type_count as u16) - 1).to_be_bytes());

    let type_list_start = map_start + type_list_offset as usize;
    bytes[type_list_start..type_list_start + 2]
        .copy_from_slice(&((type_count as u16) - 1).to_be_bytes());
    let mut next_ref_list_offset = ref_lists_offset;
    for (i, (res_type, entries)) in type_groups.iter().enumerate() {
        let type_entry = type_list_start + 2 + i * 8;
        bytes[type_entry..type_entry + 4].copy_from_slice(res_type);
        bytes[type_entry + 4..type_entry + 6]
            .copy_from_slice(&((entries.len() as u16) - 1).to_be_bytes());
        bytes[type_entry + 6..type_entry + 8]
            .copy_from_slice(&(next_ref_list_offset as u16).to_be_bytes());

        let ref_list_start = type_list_start + next_ref_list_offset;
        for (j, (res_id, _, data_pos)) in entries.iter().enumerate() {
            let ref_entry = ref_list_start + j * 12;
            bytes[ref_entry..ref_entry + 2].copy_from_slice(&(*res_id as u16).to_be_bytes());
            bytes[ref_entry + 2..ref_entry + 4].copy_from_slice(&0xFFFFu16.to_be_bytes());
            bytes[ref_entry + 4] = 0;
            let data_offset_bytes = data_pos.to_be_bytes();
            bytes[ref_entry + 5..ref_entry + 8].copy_from_slice(&data_offset_bytes[1..4]);
        }

        next_ref_list_offset += entries.len() * 12;
    }

    bytes
}

fn minimal_code0(above_a5: u32, below_a5: u32, jt_size: u32, jt_offset: u32) -> Vec<u8> {
    let mut code0 = Vec::with_capacity(16 + jt_size as usize);
    code0.extend_from_slice(&above_a5.to_be_bytes());
    code0.extend_from_slice(&below_a5.to_be_bytes());
    code0.extend_from_slice(&jt_size.to_be_bytes());
    code0.extend_from_slice(&jt_offset.to_be_bytes());
    code0.resize(16 + jt_size as usize, 0);
    code0
}

fn machine() -> FixtureRunner {
    let mut runner = FixtureRunner::new(8 * 1024 * 1024, FixtureRunnerConfig::default());
    runner.cpu.write_reg(Register::PC, 0x0001_0000);
    runner.cpu.write_reg(Register::A7, 0x0070_0000);
    for i in 0..64 {
        runner.bus.write_word(0x0001_0000 + 2 * i, 0x4E71); // NOP
    }
    runner.bus.write_word(0x0001_0080, 0x60FE); // BRA.S to itself
    runner
}

fn set_tick(runner: &mut FixtureRunner, tick: u32) {
    runner.bus.write_long(TICKS, tick);
    runner.dispatcher.tick_count = tick;
}

fn file(path: &str, byte: u8) -> VfsFileSnapshot {
    VfsFileSnapshot {
        path: path.to_string(),
        data_fork: vec![byte; 3],
        resource_fork: vec![byte; 2],
        file_type: four_char(*b"TEXT"),
        creator: four_char(*b"ttxt"),
        finder_flags: byte as u16,
        created_date: 100 + byte as u32,
        modified_date: 200 + byte as u32,
    }
}

#[test]
fn imported_file_reads_back_under_any_spelling() {
    let mut runner = machine();
    runner.import_vfs_file(&file("/Folder//A", 7));
    let found = runner.vfs_file_snapshot("Folder:A").expect("the file is there");
    assert_eq!(found, VfsFileSnapshot { path: "Folder/A".to_string(), ..file("", 7) });
}

#[test]
fn import_and_removal_leave_other_files() {
    let mut runner = machine();
    runner.import_vfs_file(&file("Folder/A", 1));
    runner.import_vfs_file(&file("Folder/B", 2));
    assert_eq!(runner.vfs_file_snapshot("Folder/A"), Some(file("Folder/A", 1)));
    assert!(runner.remove_vfs_file("Folder/B"));
    assert_eq!(runner.vfs_file_snapshot("Folder/B"), None);
    assert!(!runner.remove_vfs_file("Folder/B"));
    assert_eq!(runner.vfs_file_snapshot("Folder/A"), Some(file("Folder/A", 1)));
}

#[test]
fn files_are_listed_in_order() {
    let mut runner = machine();
    for name in ["b", "Z", "ab", "a"] {
        runner.import_vfs_file(&file(name, 1));
    }
    let names: Vec<String> = runner.vfs_file_summaries().into_iter().map(|f| f.path).collect();
    assert_eq!(names, vec!["Z", "a", "ab", "b"]);
}

#[test]
fn callback_gives_the_registers_back() {
    let mut runner = machine();
    let stub = 0x0002_0000;
    runner.bus.write_word(stub, 0x7055); // MOVEQ #$55,D0
    runner.bus.write_word(stub + 2, 0x4E75); // RTS
    runner.cpu.write_reg(Register::D0, 0x1234_5678);
    runner.cpu.write_reg(Register::A3, 0x0BAD_CAFE);
    runner.inject_interrupt_callback(ActiveInterruptCallbackSource::Timer, stub);
    assert_eq!(runner.cpu.read_reg(Register::PC), stub);
    let (_, running) = runner.run_steps(2, None);
    assert!(running);
    assert_eq!(runner.cpu.read_reg(Register::D0), 0x55);
    let (steps, _) = runner.run_steps(1, None);
    assert_eq!(steps, 1);
    assert_eq!(runner.cpu.read_reg(Register::D0), 0x1234_5678);
    assert_eq!(runner.cpu.read_reg(Register::A3), 0x0BAD_CAFE);
    assert_eq!(runner.cpu.read_reg(Register::A7), 0x0070_0000);
    assert_eq!(runner.cpu.read_reg(Register::PC), 0x0001_0002);
}

#[test]
fn callback_is_not_interrupted_by_another() {
    let mut runner = machine();
    runner.dispatcher.timer_tasks.push(TimerTask {
        task_ptr: 0x0003_0000,
        tm_addr: 0x0003_1000,
        active: true,
        fire_at_tick: 1,
        fire_at_subtick: 0,
        last_fired_tick: None,
    });
    runner.inject_interrupt_callback(ActiveInterruptCallbackSource::Timer, 0x0002_0000);
    runner.fire_timer_tasks_at(1_000_000);
    assert_eq!(runner.cpu.read_reg(Register::PC), 0x0002_0000);
    assert!(!runner.fire_sound_callbacks());
    assert!(!runner.fire_file_completion_callback());
}

#[test]
fn key_release_undoes_the_press_and_memory_shows_both() {
    let mut runner = machine();
    runner.push_key_down(0x31, b' ');
    assert_eq!(runner.bus.read_byte(KEY_MAP_LM + 6), 0x02);
    runner.push_key_up(0x31, b' ');
    for i in 0..16 {
        assert_eq!(runner.bus.read_byte(KEY_MAP_LM + i), 0);
    }
}

#[test]
fn both_clocks_show_the_same_tick() {
    let mut runner = machine();
    set_tick(&mut runner, u32::MAX);
    assert_eq!(runner.advance_guest_tick(), 0);
    assert_eq!(runner.bus.read_long(TICKS), 0);
    assert_eq!(runner.dispatcher.tick_count, 0);
}

#[test]
fn clock_stops_at_the_cap() {
    let mut runner = machine();
    set_tick(&mut runner, 100);
    runner.set_instructions_per_tick(2);
    runner.tick_budget = 2;
    assert!(runner.charge_tick_budget(50, Some(103)));
    assert_eq!(runner.guest_tick(), 103);

    let mut sleeper = machine();
    set_tick(&mut sleeper, 100);
    sleeper.dispatcher.pending_wait_sleep_ticks = 60;
    sleeper.service_wait_sleep_ticks(Some(110));
    assert!(sleeper.guest_tick() <= 110);

    let mut delayed = machine();
    set_tick(&mut delayed, 100);
    delayed.dispatcher.pending_delay_ticks = 60;
    delayed.service_delay_ticks(Some(110));
    assert!(delayed.guest_tick() <= 110);

    let mut skipping = machine();
    set_tick(&mut skipping, 100);
    skipping.advance_until_tick(500, Some(120));
    assert_eq!(skipping.guest_tick(), 120);
}

#[test]
fn slice_stops_at_its_deadline() {
    let mut runner = machine();
    runner.set_instructions_per_tick(3);
    runner.tick_budget = 3;
    let (steps, running) = runner.run_gui_cpu_slice(10_000, 5);
    assert!(running);
    assert!(steps < 10_000);
    assert_eq!(runner.guest_tick(), 5);
}

#[test]
fn sound_work_leaves_the_clock() {
    let mut runner = machine();
    set_tick(&mut runner, 77);
    runner.set_instructions_per_tick(1);
    assert_eq!(runner.run_pending_sound_work(1000), (0, true));
    assert_eq!(runner.guest_tick(), 77);
    assert_eq!(runner.cpu.read_reg(Register::PC), 0x0001_0000);
}

#[test]
fn skipped_loop_would_have_ended() {
    let mut runner = machine();
    let base = 0x0001_0000;
    // Waits until the tick less one is not below D3.
    for (i, word) in [0x594F, 0xA975, 0x201F, 0x5380, 0xB680, 0x62F4, 0x4E71].iter().enumerate() {
        runner.bus.write_word(base + 2 * i as u32, *word);
    }
    set_tick(&mut runner, 100);
    runner.cpu.write_reg(Register::D3, 150);
    let (capped, skipped) = runner.try_tickcount_spin_fastfwd(base + 4, None);
    assert!(!capped);
    assert_eq!(skipped, 4);
    assert_eq!(runner.guest_tick(), 151);
    assert!(runner.cpu.read_reg(Register::D3) <= runner.guest_tick() - 1);
}

#[test]
fn earliest_timer_fires_first() {
    let mut runner = machine();
    for (ptr, due) in [(0x0003_0000, 30), (0x0003_0100, 10), (0x0003_0200, 20)] {
        runner.bus.write_word(ptr + 0x40, 0x4E75); // RTS
        runner.dispatcher.timer_tasks.push(TimerTask {
            task_ptr: ptr,
            tm_addr: ptr + 0x40,
            active: true,
            fire_at_tick: 1,
            fire_at_subtick: due,
            last_fired_tick: None,
        });
    }
    runner.fire_timer_tasks_at(1000);
    assert!(runner.active_interrupt_callback.is_some());
    let active: Vec<bool> = runner.dispatcher.timer_tasks.iter().map(|t| t.active).collect();
    assert_eq!(active, vec![true, false, true]);
}

#[test]
fn halted_machine_runs_nothing() {
    let mut runner = machine();
    runner.bus.write_word(0x0001_0000, 0xA9F4); // _ExitToShell
    let (_, running) = runner.run_steps(10, None);
    assert!(!running);
    assert!(runner.halted_by_exit_to_shell());
    let before = runner.total_instructions();
    assert_eq!(runner.run_steps(10, None), (0, false));
    assert_eq!(runner.total_instructions(), before);
}

#[test]
fn empty_slice_runs_nothing() {
    let mut runner = machine();
    assert_eq!(runner.run_steps(0, None), (0, true));
    assert_eq!(runner.cpu.read_reg(Register::PC), 0x0001_0000);
}

#[test]
fn launched_application_finds_all_files() {
    let mut runner = machine();
    runner.import_vfs_file(&file("Folder/A", 5));
    let code0 = minimal_code0(0, 0x2000, 0, 0);
    let fork = make_resource_fork_bytes(&[(*b"CODE", 0, &code0)]);
    runner.dispatcher.files.vfs.set_resource("Apps/Helper", fork);
    runner.set_mouse_position(12, 34);
    set_tick(&mut runner, 4321);
    assert_eq!(runner.switch_to_launched_application("Apps:Helper"), Ok(()));
    assert_eq!(runner.vfs_file_snapshot("Folder/A"), Some(file("Folder/A", 5)));
    assert_eq!(runner.guest_tick(), 4321);
    assert_eq!(runner.dispatcher.launched_app_path, Some("Apps/Helper".to_string()));
    assert_eq!(runner.dispatcher.mouse().0, (12, 34));
    assert!(!runner.is_halted());
}

#[test]
fn launch_finds_a_fork_in_another_case_and_keeps_the_volume() {
    let mut runner = machine();
    let code0 = minimal_code0(0, 0x2000, 0, 0);
    let fork = make_resource_fork_bytes(&[(*b"CODE", 0, &code0)]);
    runner.dispatcher.files.vfs.set_resource("Apps/Helper", fork);
    runner.dispatcher.files_mut().vfs_mut().lock_file("Apps/Helper");
    let before = runner.dispatcher.files_mut().vfs_mut().take_working_dir();
    assert_eq!(runner.switch_to_launched_application("apps:HELPER"), Ok(()));
    assert!(runner.dispatcher.files.vfs.is_locked("Apps/Helper"));
    assert!(!runner.dispatcher.files.vfs.is_locked("Apps/Other"));
    assert_eq!(runner.dispatcher.files_mut().vfs_mut().take_working_dir(), before + 1);
    assert!(!runner.is_halted());
}

#[test]
fn loaded_resource_is_whole_after_the_start() {
    let mut runner = machine();
    let code0 = minimal_code0(0, 0x2000, 0, 0);
    let picture: Vec<u8> = (0..200).collect();
    let bytes = make_resource_fork_bytes(&[(*b"CODE", 0, &code0), (*b"PICT", 128, &picture)]);
    let fork = ResourceFork::parse(&bytes).expect("a resource fork");
    let app = runner.load_app(&fork).expect("an application");
    let at = runner
        .dispatcher
        .resources
        .loaded
        .iter()
        .find(|r| r.res_type == four_char(*b"PICT") && r.id == 128)
        .map(|r| r.ptr)
        .expect("the picture is in memory");
    runner.init_app(&app);
    assert_eq!(runner.bus.read_bytes(at, 200), picture);
}

#[test]
fn disassembly_goes_on_behind_each_line() {
    let mut runner = machine();
    runner.bus.write_word(0x0001_0000, 0x7007);
    let lines = runner.disassemble_at(0x0001_0000, 3);
    assert_eq!(lines.len(), 3);
    assert!(lines[0].1.contains("MOVEQ"), "got {}", lines[0].1);
    for pair in lines.windows(2) {
        assert!(pair[0].2 >= LEAST_INSTRUCTION && pair[0].2 <= LARGEST_INSTRUCTION);
        assert_eq!(pair[1].0, pair[0].0 + pair[0].2);
    }
    let past = runner.disassemble_at(8 * 1024 * 1024, 1);
    assert_eq!(past, vec![(8 * 1024 * 1024, "<unmapped>".to_string(), 2)]);
    assert_eq!(disassembly_line(4, "?".to_string(), 0).2, 2);
    assert_eq!(disassembly_line(4, "?".to_string(), 99).2, 10);
}

#[test]
fn merging_adds_only_what_is_missing() {
    let mut runner = machine();
    let code0 = minimal_code0(0, 0x2000, 0, 0);
    let app = make_resource_fork_bytes(&[(*b"CODE", 0, &code0), (*b"STR ", 1, b"one")]);
    let fork = ResourceFork::parse(&app).expect("a resource fork");
    runner.load_app(&fork).expect("an application");
    let extra = make_resource_fork_bytes(&[(*b"STR ", 1, b"other"), (*b"STR ", 2, b"two")]);
    let extra = ResourceFork::parse(&extra).expect("a resource fork");
    assert_eq!(runner.merge_resources_into_application(&extra), 1);
    assert_eq!(runner.merge_resources_into_application(&extra), 0);
    let (ptr, size) = runner
        .dispatcher
        .resources
        .loaded
        .iter()
        .find(|r| r.res_type == four_char(*b"STR ") && r.id == 1)
        .map(|r| (r.ptr, r.size))
        .expect("the string is in memory");
    assert_eq!(size, 3);
    assert_eq!(runner.bus.read_bytes(ptr, 3), b"one".to_vec());
}

#[test]
fn file_summary_has_sizes_and_hashes() {
    let mut runner = machine();
    runner.import_vfs_file(&VfsFileSnapshot { data_fork: b"a".to_vec(), ..file("Folder/A", 3) });
    let summary = runner.vfs_file_summary("Folder/A").expect("the file is there");
    assert_eq!((summary.data_len, summary.resource_len), (1, 2));
    assert_eq!(summary.data_hash, 0xaf63_dc4c_8601_ec8c);
    assert_eq!(runner.vfs_file_summary("Folder/B"), None);
    let stats = runner.vfs_file_stats_where(|path| path.ends_with("A"));
    assert_eq!(stats.len(), 1);
    assert_eq!((stats[0].data_len, stats[0].created_date), (1, 103));
    assert!(runner.vfs_file_stats_where(|path| path.is_empty()).is_empty());
}

#[test]
fn dialog_request_is_taken_once() {
    let mut runner = machine();
    runner.set_native_standard_file_dialogs(true);
    runner.dispatcher.files.standard_file.request =
        Some(StandardFileDialogRequest::Open { allowed_file_types: None });
    assert_eq!(
        runner.take_standard_file_dialog_request(),
        Some(StandardFileDialogRequest::Open { allowed_file_types: None })
    );
    assert_eq!(runner.take_standard_file_dialog_request(), None);
    runner.cancel_standard_file_dialog();
    runner.set_native_standard_file_dialogs(false);
    assert_eq!(runner.dispatcher.files.standard_file.response, None);
}

#[test]
fn halted_machine_shows_its_stack() {
    let mut runner = machine();
    runner.bus.write_word(0x0001_0000, 0xA9F4); // _ExitToShell
    runner.bus.write_word(0x0070_0000, 0x1111);
    runner.bus.write_word(0x0070_0004, 0x3333);
    assert_eq!(runner.halted_stack_word0(), None);
    runner.run_steps(10, None);
    assert_eq!(runner.halted_stack_word0(), Some(0x1111));
    assert_eq!(runner.halted_stack_word(2), Some(0x3333));
    let shown = runner.debug_overlay_snapshot(7u8);
    assert_eq!(shown.frame_stats, 7);
    assert_eq!(shown.cursor_hotspot, None);
    assert_eq!(shown.cursor_mask_nonzero_bytes, None);
    assert!(shown.halted);
    assert_eq!(shown.halted_trap, Some(0xA9F4));
    assert_eq!(shown.halted_pc, runner.halted_pc());
}

#[test]
fn audio_is_drained_in_place_of_what_was_there() {
    let mut runner = machine();
    runner.mix_gui_audio_slice(4);
    let n = runner.audio_buffer_len();
    let mut out = vec![1, 2, 3, 4, 5, 6, 7, 8, 9];
    runner.drain_audio_into(&mut out);
    assert_eq!(out.len(), n);
    assert_eq!(runner.audio_buffer_len(), 0);
}

#[test]
fn guest_finds_the_mouse_where_the_host_put_it() {
    let mut runner = machine();
    runner.set_mouse_position(-3, 270);
    for place in [M_TEMP, RAW_MOUSE, MOUSE] {
        assert_eq!(runner.bus.read_word(place) as i16, -3);
        assert_eq!(runner.bus.read_word(place + 2), 270);
    }
}

#[test]
fn both_file_lists_tell_the_same() {
    let mut runner = machine();
    runner.import_vfs_file(&file("Folder/A", 1));
    runner.import_vfs_file(&file("B", 2));
    let stats = runner.vfs_file_stats_where(|_| true);
    let summaries = runner.vfs_file_summaries_where(|_| true);
    assert_eq!(stats.len(), 2);
    assert_eq!(summaries.len(), 2);
    for (stat, summary) in stats.iter().zip(&summaries) {
        assert_eq!(stat.path, summary.path);
        assert_eq!(stat.data_len, summary.data_len);
        assert_eq!(stat.resource_len, summary.resource_len);
        assert_eq!(stat.file_type, summary.file_type);
        assert_eq!(stat.modified_date, summary.modified_date);
    }
}

#[test]
fn processor_runs_on_the_registers_that_were_set() {
    let mut cpu = M68kCpu::new();
    let mut bus = MacMemoryBus::new(0x2_0000);
    bus.write_word(0x1000, 0xD081); // ADD.L D1,D0
    bus.write_word(0x1002, 0x2080); // MOVE.L D0,(A0)
    bus.write_word(0x1004, 0x60FE); // BRA.S to itself
    cpu.write_reg(Register::D0, 40);
    cpu.write_reg(Register::D1, 2);
    cpu.write_reg(Register::A0, 0x1800);
    cpu.write_reg(Register::PC, 0x1000);
    assert_eq!(cpu.run_batch(&mut bus, 2, &[0]), (2, CpuExit::BudgetExhausted));
    assert_eq!(cpu.read_reg(Register::D0), 42);
    assert_eq!(bus.read_long(0x1800), 42);
    assert_eq!(cpu.run_batch(&mut bus, 100, &[0, 0x1004]), (1, CpuExit::WatchedPc(0x1004)));
    cpu.write_reg(Register::PC, 0x1000);
    assert_eq!(cpu.step(&mut bus), StepResult::Done);
    assert_eq!(cpu.read_reg(Register::D0), 44);
    assert_eq!(cpu.ppc(), 0x1000);
    bus.write_word(0x1002, 0xA9F4);
    assert_eq!(cpu.step(&mut bus), StepResult::Aline(0xA9F4));
    assert_eq!(cpu.pc(), 0x1004);
}

#[test]
fn snapshots_tell_registers_apart() {
    let mut cpu = M68kCpu::new();
    let first = cpu.snapshot();
    assert!(first.is_same(&cpu.snapshot()));
    cpu.write_reg(Register::A6, 1);
    assert!(!first.is_same(&cpu.snapshot()));
    cpu.write_reg(Register::A6, 0);
    assert!(first.is_same(&cpu.snapshot()));

    let mut bus = MacMemoryBus::new(0x2_0000);
    bus.write_word(0x1000, 0x4E7B); // MOVEC A0,VBR
    bus.write_word(0x1002, 0x8801);
    cpu.write_reg(Register::PC, 0x1000);
    cpu.write_reg(Register::A0, 0x400);
    assert_eq!(cpu.step(&mut bus), StepResult::Done);
    let with_vector_base = cpu.snapshot();
    cpu.write_reg(Register::PC, 0x1000);
    cpu.write_reg(Register::A0, 0x500);
    assert_eq!(cpu.step(&mut bus), StepResult::Done);
    cpu.write_reg(Register::A0, 0x400);
    assert!(!with_vector_base.is_same(&cpu.snapshot()));
}

#[test]
fn machine_halts_where_no_instruction_is() {
    for pc in [0, 0x5E, 8 * 1024 * 1024] {
        let mut runner = machine();
        runner.cpu.write_reg(Register::PC, pc);
        assert_eq!(runner.run_steps(10, None), (0, false));
        assert_eq!(runner.halted_pc(), Some(pc));
        assert_eq!(runner.halted_sp(), Some(0x0070_0000));
    }
}

#[test]
fn mixing_sound_leaves_the_clock() {
    let mut runner = machine();
    set_tick(&mut runner, 9);
    runner.mix_gui_audio_slice(300);
    runner.mix_audio(300);
    assert_eq!(runner.guest_tick(), 9);
    assert_eq!(runner.total_instructions(), 0);
    assert!(runner.idle_cycle_probe.is_none());
}

#[test]
fn fired_timer_rests_until_it_is_primed() {
    let mut runner = machine();
    runner.dispatcher.timer_tasks.push(TimerTask {
        task_ptr: 0x0003_0000,
        tm_addr: 0,
        active: true,
        fire_at_tick: 1,
        fire_at_subtick: 5,
        last_fired_tick: None,
    });
    runner.bus.write_word(0x0003_0004, 0x8001);
    runner.fire_timer_tasks_at(2_000_000);
    assert!(!runner.dispatcher.timer_tasks[0].active);
    assert_eq!(runner.dispatcher.timer_tasks[0].last_fired_tick, Some(2));
    assert_eq!(runner.bus.read_word(0x0003_0004), 0x0001);
    let before = runner.dispatcher.timer_tasks.clone();
    runner.fire_timer_tasks_at(9_000_000);
    assert_eq!(runner.dispatcher.timer_tasks, before);
}

use systemless::cpu::Register;
use systemless::events::PendingWaitNextEventReturn;
use systemless::menus::{GuestMenu, GuestMenuItem, MENU_BAR_MIDDLE};
use systemless::runner::{FixtureRunner, FixtureRunnerConfig};
use systemless::search::is_same_name;
use systemless::shell::{ChromeKind, ChromePart, CursorImage, TrapAnswer};
use systemless::sound::{PendingSoundCallback, SndChannel, SndCommand};
use systemless::theme::{MenuMetrics, Rgb, UiThemeId};
use systemless::vfs::VfsFileSnapshot;

fn machine() -> FixtureRunner {
    let mut runner = FixtureRunner::new(8 * 1024 * 1024, FixtureRunnerConfig::default());
    runner.cpu.write_reg(Register::PC, 0x0001_0000);
    runner.cpu.write_reg(Register::A7, 0x0070_0000);
    for i in 0..64 {
        runner.bus.write_word(0x0001_0000 + 2 * i, 0x4E71); // NOP
    }
    runner.bus.write_word(0x0001_0080, 0x60FE); // BRA.S to itself
    runner
}

fn item(title: &str, enabled: bool) -> GuestMenuItem {
    GuestMenuItem {
        title: title.to_string(),
        enabled,
    }
}

fn menus() -> Vec<GuestMenu> {
    vec![
        GuestMenu {
            id: 128,
            title: "File".to_string(),
            enabled: true,
            left: 30,
            items: vec![item("Open", true), item("Save", false)],
        },
        GuestMenu {
            id: 129,
            title: "Edit".to_string(),
            enabled: false,
            left: 70,
            items: vec![item("Undo", true)],
        },
    ]
}

fn file(path: &str) -> VfsFileSnapshot {
    VfsFileSnapshot {
        path: path.to_string(),
        data_fork: vec![1, 2, 3],
        resource_fork: vec![4],
        file_type: 1,
        creator: 2,
        finder_flags: 0,
        created_date: 3,
        modified_date: 4,
    }
}

#[test]
fn menus_are_shown_as_they_were_set() {
    let mut runner = machine();
    assert!(runner.guest_menu_snapshot().menus.is_empty());
    runner.dispatcher.set_menus(menus());
    let shown = runner.guest_menu_snapshot().menus;
    assert_eq!(shown.len(), 2);
    assert_eq!(shown[0].id, 128);
    assert_eq!(shown[0].title, "File");
    assert_eq!(shown[0].items.len(), 2);
    assert_eq!(shown[0].items[1].title, "Save");
    assert!(!shown[0].items[1].enabled);
    assert!(!shown[1].enabled);
    assert_eq!(shown[1].left, 70);
}

#[test]
fn only_items_that_are_there_can_be_chosen() {
    let mut runner = machine();
    runner.dispatcher.set_menus(menus());
    for (menu, item) in [(128, 0), (128, 2), (128, 3), (128, -1), (129, 1), (130, 1)] {
        assert!(!runner.select_guest_menu_item(menu, item));
        assert!(!runner.dispatcher.has_pending_native_menu_event());
    }
    assert!(runner.select_guest_menu_item(128, 1));
    assert!(runner.dispatcher.has_pending_native_menu_event());
}

#[test]
fn menu_choice_wakes_a_sleeper_with_a_press_in_the_menu_bar() {
    let mut runner = machine();
    runner.dispatcher.sent_open_app_event = true;
    runner.dispatcher.set_menus(menus());
    runner.dispatcher.pending_wait_sleep_ticks = 60;
    runner.dispatcher.pending_wait_next_event_return = Some(PendingWaitNextEventReturn {
        event_mask: 0xFFFF,
        event_ptr: 0x0002_0000,
        mouse_rgn: 0,
        result_ptr: 0x0002_0100,
        resume_pc: Some(0x0001_0000),
        resume_sp: Some(0x0070_0000),
    });
    assert!(runner.select_guest_menu_item(128, 1));
    assert_eq!(runner.bus.read_word(0x0002_0000), 1); // mouseDown
    assert_eq!(runner.bus.read_word(0x0002_000A), MENU_BAR_MIDDLE as u16);
    assert_eq!(runner.bus.read_word(0x0002_000C), 30);
    assert_eq!(runner.bus.read_word(0x0002_0100), 0xFFFF);
    assert_eq!(runner.dispatcher.pending_wait_sleep_ticks, 0);
    assert!(!runner.dispatcher.has_pending_native_menu_event());
}

#[test]
fn menu_choice_ends_a_sleep_that_nobody_waits_in() {
    let mut runner = machine();
    runner.dispatcher.set_menus(menus());
    assert!(runner.select_guest_menu_item(128, 1));
    runner.dispatcher.pending_wait_sleep_ticks = 60;
    runner.run_steps(1, None);
    assert_eq!(runner.dispatcher.pending_wait_sleep_ticks, 0);
    assert_eq!(runner.guest_tick(), 0);
}

#[test]
fn overlay_shows_the_cursor_image() {
    let mut runner = machine();
    let mut mask = [0u8; 32];
    mask[3] = 0x80;
    mask[31] = 1;
    runner.dispatcher.set_cursor_data(Some(CursorImage {
        mask,
        hot_v: 2,
        hot_h: 5,
    }));
    runner.dispatcher.set_fullscreen_locked(true);
    runner.dispatcher.set_menus(menus());
    let shown = runner.debug_overlay_snapshot("stats");
    assert_eq!(shown.frame_stats, "stats");
    assert!(shown.cursor_data_present);
    assert_eq!(shown.cursor_mask_nonzero_bytes, Some(2));
    assert_eq!(shown.cursor_hotspot, Some((2, 5)));
    assert!(shown.fullscreen_locked);
    assert_eq!(shown.menu_count, 2);
}

fn chrome() -> Vec<ChromePart> {
    vec![
        ChromePart {
            kind: ChromeKind::MenuBar,
            at: 0x0020_0000,
            pixels: vec![1, 2, 3],
        },
        ChromePart {
            kind: ChromeKind::Window,
            at: 0x0020_0100,
            pixels: vec![4, 5],
        },
        ChromePart {
            kind: ChromeKind::Dialog,
            at: 0x0020_0200,
            pixels: vec![6],
        },
    ]
}

#[test]
fn frame_draws_the_chrome_again() {
    let mut runner = machine();
    runner.set_chrome(chrome());
    runner.run_gui_cpu_slice(3, 5);
    assert_eq!(runner.bus.read_byte(0x0020_0100), 0);
    runner.run_steps(3, None);
    assert_eq!(runner.bus.read_word(0x0020_0100), 0x0405);
    assert_eq!(runner.bus.read_byte(0x0020_0000), 0); // the menu bar is hidden
    assert_eq!(runner.bus.read_byte(0x0020_0200), 0); // there is no dialog
    runner.bus.write_word(0x0020_0100, 0xFFFF);
    runner.set_menu_bar_visible(true);
    runner.composite_frame();
    assert_eq!(runner.bus.read_word(0x0020_0100), 0x0405);
    assert_eq!(runner.bus.read_word(0x0020_0000), 0x0102);
}

#[test]
fn guest_puts_commands_into_its_channel() {
    let mut runner = machine();
    runner.set_audio();
    let (chan, header) = (0x0030_0000, 0x0031_0000);
    runner.dispatcher.sound_manager.channels.push(SndChannel::new(chan, false));
    runner.bus.write_long(chan + 8, 0x0001_0040); // the callback procedure
    runner.bus.write_word(chan + 30, 128);
    runner.bus.write_word(chan + 34, 2);
    runner.bus.write_word(chan + 36, 81); // bufferCmd
    runner.bus.write_long(chan + 40, header);
    runner.bus.write_word(chan + 44, 13); // callBackCmd
    runner.bus.write_word(chan + 46, 7);
    runner.bus.write_long(chan + 48, 9);
    runner.bus.write_long(header + 4, 6);
    runner.bus.write_long(header + 8, 22050 << 16);
    runner.bus.write_bytes(header + 22, &[0x90; 6]);
    runner.mix_gui_audio_slice(4);
    assert_eq!(runner.take_host_audio(), vec![0x90; 8]);
    assert_eq!(runner.bus.read_word(chan + 32), 1);
    assert_eq!(runner.bus.read_word(chan + 20), 81);
    runner.mix_audio(4);
    assert_eq!(
        runner.take_host_audio(),
        vec![0x90, 0x90, 0x90, 0x90, 0x80, 0x80, 0x80, 0x80]
    );
    assert_eq!(runner.bus.read_word(chan + 32), 2);
    assert_eq!(
        runner.dispatcher.sound_manager.pending_sound_callbacks,
        vec![PendingSoundCallback::Command {
            callback_addr: 0x0001_0040,
            chan_ptr: chan,
            cmd: SndCommand {
                cmd: 13,
                param1: 7,
                param2: 9
            }
        }]
    );
    runner.mix_gui_audio_slice(0);
    assert_eq!(runner.bus.read_word(chan + 20), 0);
    assert!(runner.dispatcher.sound_manager.pending_sound_callbacks.is_empty());
}

#[test]
fn flush_command_empties_the_queue() {
    let mut runner = machine();
    let chan = 0x0030_0000;
    runner.dispatcher.sound_manager.channels.push(SndChannel::new(chan, false));
    runner.bus.write_word(chan + 30, 128);
    runner.bus.write_word(chan + 32, 126);
    runner.bus.write_word(chan + 34, 1);
    runner.bus.write_word(chan + 36 + 127 * 8, 4); // flushCmd behind a null command
    runner.service_guest_sound_queues();
    assert_eq!(runner.bus.read_word(chan + 32), 1);
    runner.bus.write_word(chan + 32, 200); // no queue at all
    runner.service_guest_sound_queues();
    assert_eq!(runner.bus.read_word(chan + 32), 200);
}

#[test]
fn host_answers_a_trap_that_nothing_serves() {
    let mut runner = machine();
    runner.bus.write_word(0x0001_0000, 0xA8EC); // _CopyBits
    runner.answer_trap(TrapAnswer {
        opcode: 0xA8EC,
        d0: None,
        popped: 2,
        result: None,
    });
    runner.answer_trap(TrapAnswer {
        opcode: 0xA8EC,
        d0: Some(0xFFFF_FFCE),
        popped: 22,
        result: Some(0x0100),
    });
    assert_eq!(runner.run_steps(1, None), (1, true));
    assert_eq!(runner.cpu.read_reg(Register::D0), 0xFFFF_FFCE);
    assert_eq!(runner.cpu.read_reg(Register::A7), 0x0070_0016);
    assert_eq!(runner.bus.read_word(0x0070_0016), 0x0100);
    assert_eq!(runner.cpu.read_reg(Register::PC), 0x0001_0002);
}

#[test]
fn colours_stay_as_the_application_set_them() {
    let mut runner = machine();
    assert_eq!(runner.dispatcher().application_clut(), None);
    let mut clut = [[0u16; 3]; 256];
    clut[7] = [1, 2, 3];
    runner.install_application_clut(clut);
    assert_eq!(runner.dispatcher().application_clut(), Some(clut));
}

#[test]
fn classic_look_is_black_on_white() {
    let classic = UiThemeId::ClassicSystem7.provider();
    assert_eq!(
        classic.menu_metrics(),
        MenuMetrics {
            bar_height: 20,
            item_height: 16,
            title_margin: 10
        }
    );
    assert_eq!(
        classic.palette().ground,
        Rgb {
            red: 255,
            green: 255,
            blue: 255
        }
    );
}

#[test]
fn launched_application_keeps_the_look() {
    let mut runner = FixtureRunner::new(
        8 * 1024 * 1024,
        FixtureRunnerConfig {
            ui_theme: UiThemeId::SystemlessDefault,
            ..FixtureRunnerConfig::default()
        },
    );
    assert!(runner.switch_to_launched_application("Nowhere").is_err());
    assert_eq!(runner.dispatcher().ui_theme_id(), UiThemeId::SystemlessDefault);
}

#[test]
fn resource_forks_are_found_in_any_case() {
    assert!(is_same_name("Apps/HELPER", "apps/helper"));
    assert!(!is_same_name("Apps/Helper", "Apps/Helpers"));
    assert!(!is_same_name("[", "{"));
    let mut runner = machine();
    runner.dispatcher.files.vfs.set_resource("Apps/helper", vec![1]);
    runner.dispatcher.files.vfs.set_resource("Apps/Helper", vec![2]);
    let vfs = &runner.dispatcher.files.vfs;
    assert_eq!(vfs.find_vfs_rsrc_file("Apps/helper"), Some("Apps/helper".to_string()));
    assert_eq!(vfs.find_vfs_rsrc_file("apps/HELPER"), Some("Apps/Helper".to_string()));
    assert_eq!(vfs.find_vfs_rsrc_file("Apps/Other"), None);
}

#[test]
fn locked_files_and_working_directories_are_counted() {
    let mut runner = machine();
    let vfs = runner.dispatcher.files_mut().vfs_mut();
    assert!(!vfs.is_locked("A"));
    vfs.lock_file("A");
    vfs.lock_file("A");
    assert!(vfs.is_locked("A"));
    let first = vfs.take_working_dir();
    assert_eq!(vfs.take_working_dir(), first + 1);
}

#[test]
fn folder_shows_its_folders_and_its_files() {
    let mut runner = machine();
    runner.import_vfs_file(&file("Folder/B"));
    runner.import_vfs_file(&file("Folder/A"));
    runner.import_vfs_file(&file("C"));
    let vfs = &runner.dispatcher.files.vfs;
    let root = vfs.list_vfs_catalog_entries(2);
    assert_eq!(root.len(), 2);
    assert!(root[0].is_directory);
    assert_eq!(root[0].name, "Folder");
    assert_eq!(root[1].name, "C");
    let folder = vfs.metadata("Folder/A").expect("entry").parent_dir_id;
    let inside = vfs.list_vfs_catalog_entries(folder);
    assert_eq!(inside.len(), 2);
    assert_eq!(inside[0].name, "A");
    assert_eq!(inside[1].name, "B");
}

#[test]
fn filtered_list_is_the_full_one_without_some_entries() {
    let mut runner = machine();
    for path in ["Z", "Folder/A", "B"] {
        runner.import_vfs_file(&file(path));
    }
    let full = runner.vfs_file_summaries();
    let some = runner.vfs_file_summaries_where(|path| path != "Folder/A");
    assert_eq!(full.len(), 3);
    let kept: Vec<_> = full.iter().filter(|s| s.path != "Folder/A").cloned().collect();
    assert_eq!(some, kept);
    for entry in &full {
        assert_eq!(runner.vfs_file_summary(&entry.path).as_ref(), Some(entry));
        assert_eq!((entry.data_len, entry.resource_len), (3, 1));
    }
}

#[test]
fn sound_mixed_by_chunks_is_the_sound_mixed_at_once() {
    let mut whole = machine();
    let mut parts = machine();
    whole.set_audio();
    parts.set_audio();
    whole.mix_audio(40);
    let mut left = 40;
    while left > 0 {
        parts.try_load_pending_double_buffers();
        parts.service_guest_sound_queues();
        left = parts.mix_audio_chunk(left);
    }
    assert_eq!(whole.take_host_audio(), parts.take_host_audio());
}

#[test]
fn silent_run_leaves_the_samples() {
    let mut runner = machine();
    runner.set_audio();
    runner.mix_audio(8);
    let before = runner.take_host_audio();
    assert_eq!(before, vec![0x80; 16]);
    runner.run_steps(5, None);
    assert!(runner.take_host_audio().is_empty());
}

#[test]
fn runs_of_the_same_order_end_alike() {
    let mut a = machine();
    let mut b = machine();
    assert_eq!(a.run_steps_with_audio(50, Some(3), 4), b.run_gui_slice_with_audio(50, 3, 4));
    assert_eq!(a.guest_tick(), b.guest_tick());
    assert_eq!(a.cpu.pc(), b.cpu.pc());
    let mut c = machine();
    let mut d = machine();
    assert_eq!(c.run_steps_with_audio(50, None, 0), d.run_steps(50, None));
    assert_eq!(c.cpu.pc(), d.cpu.pc());
}

#[test]
fn filter_may_count_its_calls() {
    let mut runner = machine();
    for path in ["Z", "Folder/A", "B"] {
        runner.import_vfs_file(&file(path));
    }
    let mut asked = Vec::new();
    let found = runner.vfs_file_stats_where(|path| {
        asked.push(path.to_string());
        asked.len() > 1
    });
    assert_eq!(asked, ["B", "Folder/A", "Z"]);
    assert_eq!(found.len(), 2);
    assert_eq!(found[0].path, "Folder/A");
}

#[test]
fn watched_slice_runs_as_any_other() {
    let mut plain = machine();
    let mut watched = machine();
    let mut pcs = Vec::new();
    let expected = plain.run_steps(20, Some(4));
    let mut slice = watched.begin_watched_slice(20, Some(4), 0, false, false, true);
    while slice.goes_on() {
        if let Some(entry) = watched.begin_watched_turn(&mut slice) {
            pcs.push(entry.pc);
        }
        if slice.is_ready() {
            assert_eq!(watched.cpu.pc(), *pcs.last().expect("an instruction"));
            assert!(watched.run_watched_turn(&mut slice));
            assert_eq!(watched.cpu.ir(), 0x4E71);
        }
    }
    assert_eq!(watched.end_watched_slice(&slice), expected);
    assert_eq!(pcs.len(), 20);
    assert_eq!(pcs[0], 0x0001_0000);
    assert_eq!(pcs[19], 0x0001_0026);
    assert_eq!(watched.cpu.pc(), plain.cpu.pc());
    assert_eq!(watched.total_instructions(), plain.total_instructions());
}

#[test]
fn watched_slice_ends_where_the_machine_halts() {
    let mut runner = machine();
    runner.bus.write_word(0x0001_0004, 0x4AFC); // ILLEGAL
    let mut slice = runner.begin_watched_slice(20, None, 0, false, false, true);
    let mut seen = 0;
    while slice.goes_on() {
        runner.begin_watched_turn(&mut slice);
        if slice.is_ready() && runner.run_watched_turn(&mut slice) {
            seen += 1;
        }
    }
    assert_eq!(runner.end_watched_slice(&slice), (2, false));
    assert_eq!(seen, 2);
    assert!(runner.is_halted());
}

#[test]
fn steps_without_limit_end_at_the_tick() {
    let mut runner = machine();
    let (steps, running) = runner.run_steps(usize::MAX, Some(2));
    assert!(running);
    assert_eq!(runner.guest_tick(), 2);
    assert_eq!(runner.total_instructions(), steps as u64);
}

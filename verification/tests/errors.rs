use systemless::cpu::{M68kCpu, Register};
use systemless::files::MountError;
use systemless::launch::{LaunchError, FNF_ERR};
use systemless::resource::four_char;
use systemless::runner::{FixtureRunner, FixtureRunnerConfig};
use systemless::standard_file::{
    OpenTracking, SaveTracking, StandardFileDialogResponse, StandardFileError,
};
use systemless::trap::Error;
use systemless::vfs::{VfsFileSnapshot, ROOT_DIR_ID};

fn machine() -> FixtureRunner {
    FixtureRunner::new(8 * 1024 * 1024, FixtureRunnerConfig::default())
}

fn text_file(path: &str) -> VfsFileSnapshot {
    VfsFileSnapshot {
        path: path.to_string(),
        data_fork: vec![1, 2, 3],
        resource_fork: vec![9],
        file_type: four_char(*b"TEXT"),
        creator: four_char(*b"ttxt"),
        finder_flags: 0x0100,
        created_date: 11,
        modified_date: 12,
    }
}

fn open_dialog(native: bool, types: Option<Vec<u32>>, dir_id: u32) -> OpenTracking {
    OpenTracking { native, allowed_file_types: types, dir_id }
}

#[test]
fn launch_without_a_resource_fork_fails() {
    let mut runner = machine();
    assert_eq!(
        runner.switch_to_launched_application("Apps/Missing"),
        Err(LaunchError::NoResourceFork)
    );
}

#[test]
fn launch_of_a_damaged_resource_fork_fails() {
    let mut runner = machine();
    runner.dispatcher.files.vfs.set_resource("Apps/Damaged", vec![0xFF; 8]);
    assert_eq!(
        runner.switch_to_launched_application("Apps/Damaged"),
        Err(LaunchError::BadResourceFork)
    );
}

#[test]
fn launch_of_a_file_without_code_fails() {
    let mut runner = machine();
    // An empty data section and a map without any type.
    let mut fork = vec![0u8; 16 + 30];
    fork[3] = 16;
    fork[7] = 16;
    fork[15] = 30;
    fork[16 + 25] = 28;
    fork[16 + 27] = 30;
    fork[16 + 28] = 0xFF;
    fork[16 + 29] = 0xFF;
    runner.dispatcher.files.vfs.set_resource("Apps/Document", fork);
    assert_eq!(
        runner.switch_to_launched_application("Apps/Document"),
        Err(LaunchError::NotAnApplication)
    );
}

#[test]
fn queued_launch_that_fails_halts_the_machine() {
    let mut runner = machine();
    runner.cpu.write_reg(Register::PC, 0x0001_2340);
    runner.cpu.write_reg(Register::A7, 0x0070_0000);
    runner
        .dispatcher
        .queue_pending_launch_application("Apps/Missing".to_string(), false);
    assert!(runner.service_pending_launch_application(false, false));
    assert!(runner.is_halted());
    assert_eq!(runner.halted_pc(), Some(0x0001_2340));
    assert_eq!(runner.halted_sp(), Some(0x0070_0000));
    assert_eq!(runner.halted_d0(), Some(FNF_ERR));
    assert!(!runner.halted_by_exit_to_shell());
}

#[test]
fn opening_without_a_dialog_fails() {
    let mut runner = machine();
    assert_eq!(
        runner.complete_standard_file_open(&text_file("Notes")),
        Err(StandardFileError::NoDialog)
    );
    runner.dispatcher.files.standard_file.get_tracking = Some(open_dialog(false, None, ROOT_DIR_ID));
    assert_eq!(
        runner.complete_standard_file_open(&text_file("Notes")),
        Err(StandardFileError::NoDialog),
        "a dialog that the guest shows is not the host's to complete"
    );
}

#[test]
fn opening_a_file_of_another_type_fails() {
    let mut runner = machine();
    let pict = four_char(*b"PICT");
    runner.dispatcher.files.standard_file.get_tracking =
        Some(open_dialog(true, Some(vec![pict]), ROOT_DIR_ID));
    assert_eq!(
        runner.complete_standard_file_open(&text_file("Notes")),
        Err(StandardFileError::TypeNotAccepted(four_char(*b"TEXT")))
    );
}

#[test]
fn opening_a_file_without_a_name_fails() {
    let mut runner = machine();
    runner.dispatcher.files.standard_file.get_tracking = Some(open_dialog(true, None, ROOT_DIR_ID));
    assert_eq!(
        runner.complete_standard_file_open(&text_file("")),
        Err(StandardFileError::NoFileName)
    );
}

#[test]
fn opening_into_a_folder_that_is_not_there_fails() {
    let mut runner = machine();
    runner.dispatcher.files.standard_file.get_tracking = Some(open_dialog(true, None, 4711));
    assert_eq!(
        runner.complete_standard_file_open(&text_file("Notes")),
        Err(StandardFileError::DirectoryNotMounted(4711))
    );
}

#[test]
fn opened_file_is_put_into_the_guest_folder() {
    let mut runner = machine();
    let dir = runner.dispatcher.files.vfs.ensure_dir("Games/Saves");
    runner.dispatcher.files.standard_file.get_tracking =
        Some(open_dialog(true, Some(vec![four_char(*b"TEXT")]), dir));
    let path = runner
        .complete_standard_file_open(&text_file("/host/folder/My:Notes"))
        .expect("the file is accepted");
    assert_eq!(path, "Games/Saves/Notes");
    assert_eq!(
        runner.dispatcher.files.standard_file.response,
        Some(StandardFileDialogResponse::Open { name: "Notes".to_string() })
    );
    let found = runner.vfs_file_snapshot(&path).expect("the guest finds it");
    assert_eq!(found.data_fork, vec![1, 2, 3]);
    assert_eq!(found.resource_fork, vec![9]);
    assert_eq!(found.created_date, 11);
}

#[test]
fn saving_without_a_dialog_or_a_name_fails() {
    let mut runner = machine();
    assert_eq!(
        runner.complete_standard_file_save("Game"),
        Err(StandardFileError::NoDialog)
    );
    runner.dispatcher.files.standard_file.put_tracking =
        Some(SaveTracking { native: true, dir_id: ROOT_DIR_ID });
    assert_eq!(
        runner.complete_standard_file_save(""),
        Err(StandardFileError::NoFileName)
    );
    runner.dispatcher.files.standard_file.put_tracking =
        Some(SaveTracking { native: true, dir_id: 99 });
    assert_eq!(
        runner.complete_standard_file_save("Game"),
        Err(StandardFileError::DirectoryNotMounted(99))
    );
}

#[test]
fn saved_name_is_answered_and_cancelling_answers_too() {
    let mut runner = machine();
    let dir = runner.dispatcher.files.vfs.ensure_dir("Saves");
    runner.dispatcher.files.standard_file.put_tracking = Some(SaveTracking { native: true, dir_id: dir });
    assert_eq!(runner.complete_standard_file_save("Slot 1"), Ok("Saves/Slot 1".to_string()));
    assert_eq!(
        runner.dispatcher.files.standard_file.response,
        Some(StandardFileDialogResponse::Save { name: "Slot 1".to_string() })
    );
    runner.cancel_standard_file_dialog();
    assert_eq!(
        runner.dispatcher.files.standard_file.response,
        Some(StandardFileDialogResponse::Cancel)
    );
}

#[test]
fn mounting_beside_the_application_reports_each_error() {
    let mut runner = machine();
    let file = text_file("Plug-In");
    assert_eq!(
        runner.import_vfs_file_relative_to_launched_app("Plug-Ins", &file),
        Err(MountError::NoLaunchedApp)
    );
    runner.dispatcher.set_launched_app_path("Game");
    assert_eq!(
        runner.import_vfs_file_relative_to_launched_app("Plug-Ins", &file),
        Err(MountError::NoParentFolder)
    );
    runner.dispatcher.set_launched_app_path("Games/Game");
    assert_eq!(
        runner.import_vfs_file_relative_to_launched_app("../Other", &file),
        Err(MountError::InvalidDirectory)
    );
    assert_eq!(
        runner.import_vfs_file_relative_to_launched_app("", &file),
        Err(MountError::InvalidDirectory)
    );
    assert_eq!(
        runner.import_vfs_file_relative_to_launched_app("Plug-Ins", &text_file("")),
        Err(MountError::NoFileName)
    );
    assert_eq!(
        runner.import_vfs_file_relative_to_launched_app("Plug-Ins", &file),
        Ok(())
    );
    assert_eq!(runner.vfs_read("Games/Plug-Ins/Plug-In"), Some(&[1u8, 2, 3][..]));
}

#[test]
fn unknown_trap_is_reported_and_ending_traps_halt() {
    let mut runner = machine();
    let mut cpu = M68kCpu::new();
    assert_eq!(
        runner.dispatcher.dispatch(0xA8EC, &mut cpu, &mut runner.bus),
        Err(Error::UnimplementedTrap(0xA8EC))
    );
    assert_eq!(
        runner.dispatcher.dispatch(0xA9F4, &mut cpu, &mut runner.bus),
        Err(Error::Halted)
    );
}

#[test]
fn run_stops_after_the_most_instructions() {
    let config = FixtureRunnerConfig { max_instructions: 25, ..FixtureRunnerConfig::default() };
    let mut runner = FixtureRunner::new(8 * 1024 * 1024, config);
    runner.bus.write_word(0x0001_0000, 0x60FE); // BRA.S to itself
    runner.cpu.write_reg(Register::PC, 0x0001_0000);
    assert_eq!(runner.run(), Err(Error::Timeout(25)));
}

#[test]
fn run_ends_with_the_application() {
    let mut runner = machine();
    runner.bus.write_word(0x0001_0000, 0x7007); // MOVEQ #7,D0
    runner.bus.write_word(0x0001_0002, 0xA9F4); // _ExitToShell
    runner.cpu.write_reg(Register::PC, 0x0001_0000);
    runner.cpu.write_reg(Register::A7, 0x0070_0000);
    let result = runner.run();
    assert!(result.is_ok());
    assert_eq!(runner.cpu.read_reg(Register::D0), 7);
}

#[test]
fn unserved_trap_is_passed_over_in_a_slice() {
    let mut runner = machine();
    runner.bus.write_word(0x0001_0000, 0xA8EC); // _CopyBits
    runner.bus.write_word(0x0001_0002, 0x7005); // MOVEQ #5,D0
    runner.cpu.write_reg(Register::PC, 0x0001_0000);
    runner.cpu.write_reg(Register::A7, 0x0070_0000);
    assert_eq!(runner.run_steps(2, None), (2, true));
    assert_eq!(runner.cpu.read_reg(Register::D0), 5);
}

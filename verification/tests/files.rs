use systemless::resource::four_char;
use systemless::runner::{FixtureRunner, FixtureRunnerConfig};
use systemless::vfs::VfsFileSnapshot;

#[test]
fn vfs_file_snapshot_round_trips_both_forks_and_metadata() {
    let mut runner = FixtureRunner::new(8 * 1024 * 1024, FixtureRunnerConfig::default());
    runner
        .dispatcher
        .files.vfs.set_data("Pilots/Test Pilot", vec![1, 2, 3]);
    runner
        .dispatcher
        .files.vfs.set_resource("Pilots/Test Pilot", vec![4, 5, 6, 7]);
    runner
        .dispatcher
        .files.vfs.set_data("__rsrc__Pilots/Test Pilot", vec![0xEE]);
    runner
        .dispatcher
        .files.vfs.set_data("Game Data/Shapes", vec![0xAA; 1024]);
    runner
        .dispatcher
        .files.vfs.set_entry_metadata("Pilots/Test Pilot", four_char(*b"PIL "), four_char(*b"EVO!"), 0x4000);
    runner
        .dispatcher
        .files.vfs.set_entry_metadata("Game Data/Shapes", four_char(*b"shap"), four_char(*b"26.2"), 0);

    let summaries = runner.vfs_file_summaries();
    assert_eq!(summaries.len(), 2);
    assert!(summaries
        .iter()
        .any(|summary| summary.path == "Game Data/Shapes"));

    let summaries = runner.vfs_file_summaries_where(|path| path.starts_with("Pilots/"));
    assert_eq!(summaries.len(), 1);
    assert_eq!(summaries[0].path, "Pilots/Test Pilot");
    assert_eq!(summaries[0].data_len, 3);
    assert_eq!(summaries[0].resource_len, 4);
    assert_eq!(summaries[0].file_type, u32::from_be_bytes(*b"PIL "));
    assert_eq!(summaries[0].creator, u32::from_be_bytes(*b"EVO!"));

    let snapshot = runner
        .vfs_file_snapshot("Pilots/Test Pilot")
        .expect("snapshot");
    assert_eq!(snapshot.data_fork, vec![1, 2, 3]);
    assert_eq!(snapshot.resource_fork, vec![4, 5, 6, 7]);
    assert_eq!(snapshot.finder_flags, 0x4000);

    let mut restored = FixtureRunner::new(8 * 1024 * 1024, FixtureRunnerConfig::default());
    restored.import_vfs_file(&snapshot);
    assert_eq!(
        restored.vfs_file_snapshot("Pilots/Test Pilot"),
        Some(snapshot)
    );

    assert!(restored.remove_vfs_file("Pilots/Test Pilot"));
    assert_eq!(restored.vfs_file_snapshot("Pilots/Test Pilot"), None);
}

#[test]
fn import_vfs_file_relative_to_launched_app_mounts_under_app_parent() {
    let mut runner = FixtureRunner::new(8 * 1024 * 1024, FixtureRunnerConfig::default());
    runner
        .dispatcher
        .set_launched_app_path("EV Override/EV Override");
    let plugin = VfsFileSnapshot {
        path: "Warblade".to_string(),
        data_fork: Vec::new(),
        resource_fork: vec![1, 2, 3, 4],
        file_type: u32::from_be_bytes(*b"Op.f"),
        creator: u32::from_be_bytes(*b"Es.O"),
        finder_flags: 0x4000,
        created_date: 123,
        modified_date: 456,
    };

    runner
        .import_vfs_file_relative_to_launched_app("EV Plug-Ins", &plugin)
        .expect("relative plugin import");

    let mounted = runner
        .vfs_file_snapshot("EV Override/EV Plug-Ins/Warblade")
        .expect("mounted plugin snapshot");
    assert_eq!(mounted.resource_fork, plugin.resource_fork);
    assert_eq!(mounted.file_type, plugin.file_type);
    assert_eq!(mounted.creator, plugin.creator);
    assert_eq!(mounted.finder_flags, plugin.finder_flags);

    let parent_dir_id = runner
        .dispatcher
        .files
        .vfs
        .metadata("EV Override/EV Plug-Ins/Warblade")
        .expect("plugin metadata")
        .parent_dir_id;
    let entries = runner
        .dispatcher
        .files
        .vfs
        .list_vfs_catalog_entries(parent_dir_id);
    assert!(entries
        .iter()
        .any(|entry| !entry.is_directory && entry.name == "Warblade"));
}

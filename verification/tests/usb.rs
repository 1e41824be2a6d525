use transcrate::device::{FileSystem, Support, by_id, devices};
use transcrate::usb::{Disk, drive_at, drives, readers_of, recognise, without_verbatim_prefix};

#[test]
fn the_name_each_platform_uses_is_recognised() {
    assert_eq!(recognise("exfat"), Some(FileSystem::ExFat));
    assert_eq!(recognise("exFAT"), Some(FileSystem::ExFat));

    assert_eq!(recognise("msdos"), Some(FileSystem::Fat32));
    assert_eq!(recognise("vfat"), Some(FileSystem::Fat32));
    assert_eq!(recognise("FAT32"), Some(FileSystem::Fat32));

    assert_eq!(recognise("hfs"), Some(FileSystem::HfsPlus));
    assert_eq!(recognise("apfs_hfs"), None);

    assert_eq!(recognise("ntfs"), Some(FileSystem::Ntfs));
    assert_eq!(recognise("NTFS"), Some(FileSystem::Ntfs));
}

#[test]
fn a_filesystem_no_player_reads_is_not_guessed_at() {
    assert_eq!(recognise("apfs"), None);
    assert_eq!(recognise("ext4"), None);
    assert_eq!(recognise("btrfs"), None);
}

#[test]
fn a_verbatim_prefix_is_removed() {
    assert_eq!(without_verbatim_prefix(r"\\?\C:\Users"), r"C:\Users");
    assert_eq!(without_verbatim_prefix("/Volumes/DJ"), "/Volumes/DJ");
}

#[test]
fn players_are_split_by_whether_they_read_the_filesystem() {
    let table = devices();
    let split = readers_of(FileSystem::ExFat, &table);

    let reads = |id: &str| split.readable.iter().any(|player| player.id == id);
    let refuses = |id: &str| split.unreadable.iter().any(|(player, _)| player.id == id);

    assert!(reads("cdj-3000"), "the 3000 reads exFAT");
    assert!(refuses("cdj-2000nxs2"), "the NXS2 does not");
    assert!(refuses("xdj-rr"), "nor does the RR");

    assert_eq!(
        split.readable.len() + split.unreadable.len(),
        table.len(),
        "every player has to land on one side"
    );
}

#[test]
fn ntfs_is_refused_by_everything() {
    let table = devices();
    let split = readers_of(FileSystem::Ntfs, &table);

    assert!(split.readable.is_empty(), "{:?}", split.readable);
    assert_eq!(split.unreadable.len(), table.len());
}

#[test]
fn a_disputed_filesystem_is_reported_as_disputed() {
    let table = devices();
    let split = readers_of(FileSystem::ExFat, &table);
    let xz = by_id("xdj-xz").expect("xdj-xz");

    let verdict = split
        .unreadable
        .iter()
        .find(|(player, _)| player.id == xz.id)
        .map(|(_, support)| *support);

    assert_eq!(verdict, Some(Support::Conflicting));
}

fn disk(mount_point: &str, file_system: &str, removable: bool) -> Disk {
    Disk {
        mount_point: mount_point.to_owned(),
        name: format!("disk at {mount_point}"),
        file_system: file_system.to_owned(),
        removable,
        total_bytes: 64,
        free_bytes: 32,
    }
}

#[test]
fn the_list_is_removable_volumes_in_a_settled_order() {
    let disks = vec![
        disk("/Volumes/ZED", "exfat", true),
        disk("/", "apfs", false),
        disk("/Volumes/ALPHA", "msdos", true),
    ];
    let once = drives(disks.clone());
    let twice = drives(disks);

    assert_eq!(once, twice);
    let mounts: Vec<_> = once.iter().map(|d| d.mount_point.as_str()).collect();
    assert_eq!(mounts, ["/Volumes/ALPHA", "/Volumes/ZED"]);
    assert_eq!(once[0].filesystem, Some(FileSystem::Fat32));
    assert_eq!(once[1].reported_as, "exfat");
}

#[test]
fn a_path_is_on_the_deepest_drive_above_it() {
    let disks = vec![disk("/", "apfs", false), disk("/Volumes/DJ", "exfat", true)];
    let found = drive_at("/Volumes/DJ/Music/track.mp3", disks.clone()).expect("a drive");
    assert_eq!(found.mount_point, "/Volumes/DJ");
    assert_eq!(found.filesystem, Some(FileSystem::ExFat));
    assert_eq!(
        drive_at("/Users/me", disks).map(|d| d.mount_point),
        Some("/".to_owned())
    );
    assert_eq!(drive_at("/nowhere", vec![disk("/Volumes/DJ", "exfat", true)]), None);
}

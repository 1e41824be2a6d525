use transcrate::device::{Codec, DeviceProfile, FileSystem, Support, by_id, devices};

#[test]
fn device_ids_are_unique() {
    let table = devices();
    let mut ids: Vec<_> = table.iter().map(|d| d.id).collect();
    ids.sort_unstable();
    let count = ids.len();
    ids.dedup();
    assert_eq!(ids.len(), count, "duplicate device id in the table");
}

#[test]
fn every_device_plays_mp3() {
    for device in &devices() {
        assert!(
            !device.formats_for(Codec::Mp3).is_empty(),
            "{} lists no MP3 support",
            device.id
        );
    }
}

#[test]
fn lossy_formats_carry_bitrate_limits() {
    for device in &devices() {
        for format in &device.formats {
            let is_lossy = matches!(format.codec, Codec::Mp3 | Codec::AacLc);
            assert_eq!(
                is_lossy,
                format.lossy.is_some(),
                "{}: {:?} disagrees with its lossy limits",
                device.id,
                format.codec
            );
        }
    }
}

#[test]
fn newer_is_not_always_more_capable() {
    let xdj_an = by_id("xdj-an").expect("xdj-an");
    let nxs2 = by_id("cdj-2000nxs2").expect("cdj-2000nxs2");

    let flac_rates = |d: &DeviceProfile| {
        d.formats_for(Codec::Flac)
            .first()
            .expect("flac")
            .sample_rates_hz
    };
    assert!(!flac_rates(&xdj_an).contains(&96_000));
    assert!(flac_rates(&nxs2).contains(&96_000));

    assert_eq!(xdj_an.filesystem_support(FileSystem::ExFat), Support::Yes);
    assert_eq!(nxs2.filesystem_support(FileSystem::ExFat), Support::No);
}

#[test]
fn an_unknown_id_finds_no_player() {
    assert!(by_id("cdj-4000").is_none());
    assert_eq!(devices().len(), 10);
}

#[test]
fn a_filesystem_nobody_lists_is_undocumented() {
    let rr = by_id("xdj-rr").expect("xdj-rr");
    assert_eq!(rr.filesystem_support(FileSystem::Ntfs), Support::No);
    assert_eq!(rr.filesystem_support(FileSystem::ExFat), Support::No);
}

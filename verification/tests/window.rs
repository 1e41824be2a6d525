use transcrate::compat::{AudioSpec, Issue};
use transcrate::convert::{ConvertError, Job};
use transcrate::device::{Codec, by_id};
use transcrate::plan::{Artwork, Target, plan};
use transcrate::probe::ProbeError;
use transcrate::scan::judge;
use transcrate::window::{
    Settings, UNREADABLE_FOLDER, failing_tracks, failure, folder_of, lamps_for, name_of, outcomes,
    relative,
};

fn settings(profile: &str, keep_comment: bool, artwork: bool, devices: &[&str]) -> Settings {
    Settings {
        profile: profile.to_owned(),
        keep_comment,
        artwork,
        devices: devices.iter().map(|id| (*id).to_owned()).collect(),
    }
}

#[test]
fn a_profile_or_a_format_names_the_target() {
    let profile = settings("cdj-safe", true, true, &[]).target().expect("profile");
    assert_eq!(profile.codec, Codec::Mp3);
    assert_eq!(profile.metadata.clear, ["lyrics-eng"]);
    assert_eq!(profile.metadata.artwork, Artwork::Keep);

    let format = settings("aiff", false, false, &[]).target().expect("format");
    assert_eq!(format.codec, Codec::PcmAiff);
    assert_eq!(format.metadata.clear, ["comment", "lyrics-eng"]);
    assert_eq!(format.metadata.artwork, Artwork::Remove);

    assert_eq!(
        settings("ogg", true, true, &[]).target().map(|t| t.codec),
        Err("no target named ogg".to_owned())
    );
}

#[test]
fn the_window_shows_the_players_named_or_all_of_them() {
    assert_eq!(settings("cdj-safe", true, true, &[]).players().expect("all").len(), 10);
    let named = settings("cdj-safe", true, true, &["xdj-rr"]).players().expect("one");
    assert_eq!(named[0].display_name, "XDJ-RR");
    assert_eq!(
        settings("cdj-safe", true, true, &["xdj-rr", "nope"])
            .players()
            .map(|players| players.len()),
        Err("no player named nope".to_owned())
    );
}

fn hi_res() -> AudioSpec {
    AudioSpec {
        codec: Codec::Flac,
        sample_rate_hz: 96_000,
        bit_depth: Some(24),
        bitrate_kbps: None,
    }
}

#[test]
fn each_track_shows_a_light_per_player_in_order() {
    let players = vec![by_id("cdj-3000").expect("3000"), by_id("xdj-rr").expect("rr")];
    let lamps = lamps_for(&hi_res(), &players);

    assert_eq!(lamps.len(), 2);
    assert_eq!((lamps[0].id, lamps[0].name, lamps[0].ok), ("cdj-3000", "CDJ-3000", true));
    assert!(lamps[0].issues.is_empty());
    assert_eq!((lamps[1].id, lamps[1].ok), ("xdj-rr", false));
    assert_eq!(lamps[1].issues, [Issue::CodecUnsupported { codec: Codec::Flac }]);
}

#[test]
fn paths_read_from_the_drive_they_sit_on() {
    assert_eq!(relative("/Volumes/STICK/Sets/Late", "/Volumes/STICK"), "Sets/Late");
    assert_eq!(relative("/Volumes/OTHER/Sets", "/Volumes/STICK"), "/Volumes/OTHER/Sets");
    assert_eq!(relative("/Volumes/STICKY/Sets", "/Volumes/STICK"), "/Volumes/STICKY/Sets");
    assert_eq!(folder_of("/Volumes/STICK/Sets/a.flac", "/Volumes/STICK"), "Sets");
    assert_eq!(folder_of("/Volumes/STICK/a.flac", "/Volumes/STICK"), "");
    assert_eq!(folder_of("/", "/Volumes/STICK"), "");
    assert_eq!(name_of("/Volumes/STICK/Sets/a.flac"), "a.flac");
    assert_eq!(name_of("/"), "/");
}

#[test]
fn only_the_refused_tracks_are_listed() {
    let players = vec![by_id("cdj-3000").expect("3000"), by_id("xdj-rr").expect("rr")];
    let plays_everywhere = AudioSpec {
        codec: Codec::Mp3,
        sample_rate_hz: 44_100,
        bit_depth: None,
        bitrate_kbps: Some(320),
    };
    let tracks = vec![
        "/Volumes/STICK/ok.mp3".to_owned(),
        "/Volumes/STICK/Sets/hi.flac".to_owned(),
        "/Volumes/STICK/Sets/broken.mp3".to_owned(),
    ];
    let verdicts = judge(
        &tracks,
        vec![Ok(plays_everywhere), Ok(hi_res()), Err(ProbeError::NoAudioStream)],
        &players,
    );
    let failing = failing_tracks(&verdicts, "/Volumes/STICK", &players);

    assert_eq!(failing.len(), 2);
    assert_eq!(failing[0].path, "/Volumes/STICK/Sets/hi.flac");
    assert_eq!(failing[0].name, "hi.flac");
    assert_eq!(failing[0].folder, "Sets");
    assert_eq!(failing[0].spec, Some(hi_res()));
    assert_eq!(failing[0].lamps.len(), 2);
    assert!(failing[0].lamps[0].ok && !failing[0].lamps[1].ok);
    assert_eq!(failing[0].error, None);

    assert_eq!(failing[1].name, "broken.mp3");
    assert!(failing[1].spec.is_none() && failing[1].lamps.is_empty());
    assert_eq!(
        failing[1].error.as_deref(),
        Some("the file contains no audio stream")
    );
}

#[test]
fn a_conversion_reports_the_jobs_then_the_failures() {
    let source = hi_res();
    let job = |input: &str, output: &str| Job {
        plan: plan(&source, &Target::cdj_safe()),
        input: input.to_owned(),
        output: output.to_owned(),
    };
    let jobs = vec![
        job("/music/a.flac", "/music/_transcrate/a.mp3"),
        job("/music/b.flac", "/music/_transcrate/b.mp3"),
    ];
    let results = vec![
        Ok(()),
        Err(ConvertError::Failed {
            stderr: "disk full".to_owned(),
        }),
    ];
    let failures = vec![
        failure("/music/Locked", UNREADABLE_FOLDER.to_owned()),
        failure("/music/c.flac", "no audio".to_owned()),
    ];
    let all = outcomes(&jobs, &results, failures);

    assert_eq!(all.len(), 4);
    assert_eq!(all[0].path, "/music/a.flac");
    assert_eq!(all[0].name, "a.flac");
    assert_eq!(all[0].output_path, "/music/_transcrate/a.mp3");
    assert_eq!(all[0].error, None);
    assert_eq!(
        all[1].error.as_deref(),
        Some("ffmpeg could not write the output: disk full")
    );
    assert_eq!(all[2].name, "Locked");
    assert_eq!(all[2].output_path, "");
    assert_eq!(all[2].error.as_deref(), Some(UNREADABLE_FOLDER));
    assert_eq!(all[3].path, "/music/c.flac");
}

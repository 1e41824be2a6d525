use transcrate::compat::{AudioSpec, Issue};
use transcrate::device::{Codec, FileSystem, Support, by_id, devices};
use transcrate::plan::Target;
use transcrate::report::{
    audio_glob, capped, codec_name, describe, describe_issue, describe_spec, filesystem_name,
    check_outcome, first_line, jobs_verdict, khz, landed_at, max_rate, plural, progress_line, readers_report, rejected_anywhere,
    relative_to, resolve_players, resolve_target,
};

#[test]
fn naming_neither_falls_back_to_the_default_profile() {
    assert_eq!(
        resolve_target(None, None).expect("default"),
        Target::cdj_safe()
    );
}

#[test]
fn a_format_resolves_to_a_target_that_changes_nothing_else() {
    let target = resolve_target(None, Some("aiff")).expect("aiff");
    assert_eq!(target, Target::from_format("aiff").expect("aiff"));
}

#[test]
fn an_unknown_profile_names_the_ones_there_are() {
    assert_eq!(
        resolve_target(Some("cdj"), None),
        Err("unknown profile: cdj. Try one of: cdj-safe, lossless, archive".to_owned())
    );
    assert_eq!(
        resolve_target(None, Some("ogg")),
        Err("unknown format: ogg. Try one of: mp3, aac, alac, flac, wav, aiff".to_owned())
    );
}

#[test]
fn progress_returns_to_the_start_of_its_own_line() {
    let line = progress_line(3, 10);

    assert!(
        line.starts_with('\r'),
        "does not return to column zero: {line:?}"
    );
    assert!(line.contains("3/10"), "does not say where it is: {line:?}");
    assert!(!line.contains('\n'), "a newline would scroll it: {line:?}");
}

#[test]
fn a_file_is_failing_when_any_player_rejects_it() {
    let everywhere = resolve_players(&Vec::new()).expect("all players");

    let hi_res = AudioSpec {
        codec: Codec::Flac,
        sample_rate_hz: 96_000,
        bit_depth: Some(24),
        bitrate_kbps: None,
    };
    assert!(rejected_anywhere(&hi_res, &everywhere));

    let safe = AudioSpec {
        codec: Codec::Mp3,
        sample_rate_hz: 44_100,
        bit_depth: None,
        bitrate_kbps: Some(320),
    };
    assert!(!rejected_anywhere(&safe, &everywhere));

    let modern = resolve_players(&vec!["cdj-3000".to_owned()]).expect("cdj-3000");
    assert!(!rejected_anywhere(&hi_res, &modern));
}

#[test]
fn no_player_named_means_all_of_them() {
    let resolved = resolve_players(&Vec::new()).expect("resolve");
    assert_eq!(resolved.len(), devices().len());
}

#[test]
fn players_are_resolved_by_id() {
    let resolved = resolve_players(&vec!["xdj-rr".to_owned(), "cdj-3000".to_owned()])
        .expect("resolve");
    let names: Vec<_> = resolved.iter().map(|player| player.display_name).collect();
    assert_eq!(names, ["XDJ-RR", "CDJ-3000"]);
}

#[test]
fn an_unknown_id_is_an_error_that_says_where_to_look() {
    let error = resolve_players(&vec!["cdj-4000".to_owned()]).expect_err("should reject");
    assert!(error.contains("cdj-4000"));
    assert!(error.contains("transcrate devices"));
}

#[test]
fn an_issue_reads_as_the_thing_to_change() {
    let rate = describe_issue(Issue::SampleRateUnsupported {
        codec: Codec::Flac,
        requested_hz: 96_000,
    });
    assert!(rate.contains("96 kHz"), "got: {rate}");
    assert!(rate.contains("FLAC"), "got: {rate}");

    let codec = describe_issue(Issue::CodecUnsupported { codec: Codec::Alac });
    assert!(codec.contains("ALAC"), "got: {codec}");

    let depth = describe_issue(Issue::BitDepthUnsupported {
        codec: Codec::PcmWav,
        requested_bits: 32,
    });
    assert!(depth.contains("32"), "got: {depth}");

    let bitrate = describe_issue(Issue::BitrateOutOfRange {
        codec: Codec::Mp3,
        requested_kbps: 400,
        allowed_kbps: (32, 320),
    });
    assert_eq!(bitrate, "400 kbps is outside 32-320 kbps for MP3");
}

#[test]
fn a_failure_reads_as_one_line_about_the_track() {
    let raw = "ffprobe could not read the file: [mp3 @ 0xaacc38000] Failed to \
               find two consecutive MPEG audio frames.\n\
               /Volumes/DJ/track.mp3: Invalid data found when processing input";

    assert_eq!(
        first_line(raw),
        "ffprobe could not read the file: Failed to find two consecutive MPEG audio frames."
    );
}

#[test]
fn a_message_without_ffprobes_noise_is_left_alone() {
    assert_eq!(first_line("no such file"), "no such file");
    assert_eq!(first_line("gave up: [1] of 2"), "gave up: [1] of 2");
}

#[test]
fn rates_read_in_kilohertz() {
    assert_eq!(khz(48_000), "48");
    assert_eq!(khz(44_100), "44.1");
    assert_eq!(khz(22_050), "22.1");
    assert_eq!(khz(11_025), "11.0");
    assert_eq!(khz(44_050), "44.0");
    assert_eq!(khz(44_250), "44.2");
    assert_eq!(khz(44_750), "44.8");
}

#[test]
fn rates_read_as_a_float_written_to_one_place_reads() {
    for hz in (1..=400_000u32).step_by(5).chain([u32::MAX, u32::MAX - 50, 4_294_967_250]) {
        let expected = if hz % 1000 == 0 {
            (hz / 1000).to_string()
        } else {
            format!("{:.1}", f64::from(hz) / 1000.0)
        };
        assert_eq!(khz(hz), expected, "{hz} Hz");
    }
}

#[test]
fn a_stream_is_described_in_one_line() {
    let spec = AudioSpec {
        codec: Codec::Flac,
        sample_rate_hz: 96_000,
        bit_depth: Some(24),
        bitrate_kbps: None,
    };
    assert_eq!(describe_spec(&spec), "FLAC 96 kHz 24-bit");
    let mp3 = AudioSpec {
        codec: Codec::Mp3,
        sample_rate_hz: 44_100,
        bit_depth: None,
        bitrate_kbps: Some(320),
    };
    assert_eq!(describe_spec(&mp3), "MP3 44.1 kHz 320 kbps");
}

#[test]
fn names_and_counts_read_naturally() {
    assert_eq!(plural(1, "track"), "track");
    assert_eq!(plural(2, "track"), "tracks");
    assert_eq!(plural(0, "folder"), "folders");
    assert_eq!(codec_name(Codec::AacLc), "AAC");
    assert_eq!(describe(Support::Conflicting), "sources disagree");
    assert_eq!(filesystem_name(FileSystem::HfsPlus), "HFS+");
    assert_eq!(audio_glob(), "(#i)*.(wav|flac|aif|aiff|m4a|mp3|aac)");
}

#[test]
fn the_highest_rate_is_shown_per_codec() {
    let rr = by_id("xdj-rr").expect("rr");
    assert_eq!(max_rate(&rr, Codec::Flac), "-");
    let cdj = by_id("cdj-3000").expect("3000");
    assert_eq!(max_rate(&cdj, Codec::Flac), "96k");
    assert_eq!(max_rate(&cdj, Codec::Mp3), "48k");
}

#[test]
fn paths_are_said_from_where_they_sit() {
    assert_eq!(relative_to("/Volumes/DJ", "/Volumes/DJ/Music/a.mp3"), "Music/a.mp3");
    assert_eq!(relative_to("/Volumes/DJ", "/elsewhere/a.mp3"), "/elsewhere/a.mp3");
    assert_eq!(
        landed_at("/music/_transcrate/2024/a.mp3", Some("/music/_transcrate")),
        "2024/a.mp3"
    );
    assert_eq!(landed_at("/music/_transcrate/a.mp3", None), "_transcrate/a.mp3");
    assert_eq!(landed_at("a.mp3", None), "a.mp3");
}

#[test]
fn a_long_list_says_how_much_it_left_out() {
    let lines: Vec<String> = (0..12).map(|i| format!("line {i}")).collect();
    let shown = capped(lines);
    assert_eq!(shown.len(), 11);
    assert_eq!(shown[10], "    and 2 more");
    assert_eq!(capped(vec!["one".to_owned()]), ["one"]);
}

#[test]
fn a_drive_report_names_who_will_not_read_it() {
    let table = devices();
    let asked = vec![by_id("cdj-3000").expect("3000"), by_id("xdj-xz").expect("xz")];
    let (lines, refused) = readers_report(FileSystem::ExFat, &table, &asked);
    assert_eq!(refused, 1);
    assert_eq!(lines[0], "  exFAT\n");
    assert_eq!(lines[1], "  reads it       CDJ-3000");
    assert_eq!(lines[2], "  XDJ-XZ         sources disagree about exFAT");
}

#[test]
fn a_check_passes_only_with_players_files_and_nothing_refused() {
    let files = vec!["/m/a.mp3".to_owned()];
    let safe = AudioSpec {
        codec: Codec::Mp3,
        sample_rate_hz: 44_100,
        bit_depth: None,
        bitrate_kbps: Some(320),
    };
    let players = resolve_players(&Vec::new());
    assert!(check_outcome(&players, &files, vec![Ok(safe)], false, true).1);
    assert!(!check_outcome(&players, &files, vec![Ok(safe)], false, false).1);

    let (said, clear) = check_outcome(&players, &Vec::new(), Vec::new(), false, true);
    assert!(!clear, "an empty run is not a clean one");
    assert_eq!(said, [transcrate::report::Said::Stderr("no audio files among the paths given".to_owned())]);

    let unknown = resolve_players(&vec!["cdj-4000".to_owned()]);
    let (said, clear) = check_outcome(&unknown, &files, vec![Ok(safe)], false, true);
    assert!(!clear);
    assert_eq!(said.len(), 1);

    let hi_res = AudioSpec {
        codec: Codec::Flac,
        sample_rate_hz: 96_000,
        bit_depth: Some(24),
        bitrate_kbps: None,
    };
    assert!(!check_outcome(&players, &files, vec![Ok(hi_res)], false, true).1);
}

#[test]
fn a_conversion_succeeds_only_when_every_file_lands() {
    let none: Vec<Result<transcrate::convert::Job, transcrate::convert::PrepareError>> = Vec::new();
    assert!(!jobs_verdict(true, &none, &Vec::new()), "nothing found is a failure");
    let refused = vec![Err(transcrate::convert::PrepareError::Destination(
        transcrate::files::PathError::Nameless("/".to_owned()),
    ))];
    assert!(!jobs_verdict(true, &refused, &Vec::new()));

    let job = transcrate::convert::prepare(
        "/m/a.wav",
        None,
        None,
        Ok(AudioSpec {
            codec: Codec::PcmWav,
            sample_rate_hz: 44_100,
            bit_depth: Some(16),
            bitrate_kbps: None,
        }),
        &transcrate::convert::TargetFor::Fixed(Target::cdj_safe()),
        "/work",
    );
    let prepared = vec![job];
    assert!(jobs_verdict(true, &prepared, &vec![Ok(())]));
    assert!(!jobs_verdict(false, &prepared, &vec![Ok(())]));
    assert!(!jobs_verdict(
        true,
        &prepared,
        &vec![Err(transcrate::convert::ConvertError::Failed {
            stderr: "x".to_owned()
        })]
    ));
}

use transcrate::compat::AudioSpec;
use transcrate::convert::{
    Clash, ConvertError, PrepareError, TargetFor, clashes, ffmpeg_args, ffmpeg_failure, prepare,
    prepare_all, refuse_clashes, same_file_key, without_dot_segments,
};
use transcrate::device::Codec;
use transcrate::files::Found;
use transcrate::plan::{Action, Target};
use transcrate::probe::ProbeError;

fn pair(input: &str, output: &str) -> Option<(String, String)> {
    Some((input.to_owned(), output.to_owned()))
}

fn on_this_filesystem(pairs: &[Option<(String, String)>]) -> Vec<Option<Clash>> {
    clashes(&pairs.to_vec(), "/work", false)
}

#[test]
fn two_sources_writing_one_file_are_both_refused() {
    let verdicts = on_this_filesystem(&[
        pair("/music/mix.wav", "/music/_transcrate/mix.mp3"),
        pair("/music/mix.flac", "/music/_transcrate/mix.mp3"),
        pair("/music/other.wav", "/music/_transcrate/other.mp3"),
    ]);

    assert_eq!(verdicts[0], Some(Clash::SameOutput(1)));
    assert_eq!(verdicts[1], Some(Clash::SameOutput(0)));
    assert_eq!(verdicts[2], None, "a name nobody else claims is fine");
}

#[test]
fn an_output_landing_on_another_source_is_refused() {
    let verdicts = on_this_filesystem(&[
        pair("/music/mix.wav", "/music/mix.mp3"),
        pair("/music/mix.mp3", "/elsewhere/mix.mp3"),
    ]);

    assert_eq!(verdicts[0], Some(Clash::OverInput(1)));
    assert_eq!(verdicts[1], None);
}

#[test]
fn slots_that_never_prepared_are_skipped_without_shifting_the_rest() {
    let verdicts = on_this_filesystem(&[
        None,
        pair("/music/mix.wav", "/music/out/mix.mp3"),
        None,
        pair("/music/mix.aiff", "/music/out/mix.mp3"),
    ]);

    assert_eq!(verdicts.len(), 4);
    assert_eq!(verdicts[0], None);
    assert_eq!(verdicts[1], Some(Clash::SameOutput(3)));
    assert_eq!(verdicts[3], Some(Clash::SameOutput(1)));
}

#[test]
fn a_destination_spelled_another_way_is_the_same_destination() {
    let verdicts = on_this_filesystem(&[
        pair("/music/mix.wav", "/music/out/mix.mp3"),
        pair("/music/mix.flac", "/music/sets/../out/./mix.mp3"),
    ]);

    assert_eq!(verdicts[0], Some(Clash::SameOutput(1)));
    assert_eq!(verdicts[1], Some(Clash::SameOutput(0)));
}

#[test]
fn names_differing_only_in_case_are_one_file_here() {
    let verdicts = clashes(
        &vec![
            pair("/music/Mix.wav", "/music/out/Mix.mp3"),
            pair("/music/mix.flac", "/music/out/mix.mp3"),
        ],
        "/work",
        true,
    );

    assert_eq!(verdicts[0], Some(Clash::SameOutput(1)));
}

#[test]
fn a_relative_path_is_read_from_where_the_run_stands() {
    assert_eq!(same_file_key("out/mix.mp3", "/work", false), "/work/out/mix.mp3");
    assert_eq!(same_file_key("/a/../b", "/work", false), "/b");
    assert_eq!(same_file_key("/A/B", "/work", true), "/a/b");
    assert_eq!(without_dot_segments("/a/./b/../c"), ["/", "a", "c"]);
}

fn mp3_source() -> AudioSpec {
    AudioSpec {
        codec: Codec::Flac,
        sample_rate_hz: 44_100,
        bit_depth: Some(16),
        bitrate_kbps: None,
    }
}

#[test]
fn working_out_a_job_names_its_plan_and_destination() {
    let job = prepare(
        "/music/track.flac",
        None,
        None,
        Ok(mp3_source()),
        &TargetFor::Fixed(Target::cdj_safe()),
        "/work",
    )
    .expect("prepare");

    assert_eq!(job.input, "/music/track.flac");
    assert_eq!(job.output, "/music/_transcrate/track.mp3");
    assert_eq!(job.plan.action, Action::Encode { dither: false });
}

#[test]
fn a_file_that_could_not_be_read_is_named_with_why() {
    let refused = prepare(
        "/music/broken.wav",
        None,
        None,
        Err(ProbeError::NoAudioStream),
        &TargetFor::Fixed(Target::cdj_safe()),
        "/work",
    )
    .expect_err("unreadable");
    assert_eq!(
        refused.message(),
        "/music/broken.wav: the file contains no audio stream"
    );
}

#[test]
fn clashing_jobs_are_turned_into_errors_that_name_each_other() {
    let found = Found {
        files: vec!["/music/mix.flac".to_owned(), "/music/mix.wav".to_owned()],
        unreadable: Vec::new(),
        roots: Vec::new(),
    };
    let prepared = prepare_all(
        &found,
        None,
        vec![Ok(mp3_source()), Ok(mp3_source())],
        &TargetFor::Fixed(Target::cdj_safe()),
        "/work",
        false,
    );
    let first = prepared[0].as_ref().expect_err("clash");
    assert_eq!(
        first,
        &PrepareError::SameDestination {
            path: "/music/mix.flac".to_owned(),
            other: "/music/mix.wav".to_owned(),
            output: "/music/_transcrate/mix.mp3".to_owned(),
        }
    );
    assert_eq!(
        first.message(),
        "/music/mix.flac and /music/mix.wav would both be written to /music/_transcrate/mix.mp3"
    );

    let mut again = vec![prepared[1].clone()];
    refuse_clashes(&mut again, "/work", false);
    assert_eq!(
        again[0].as_ref().map(|job| job.output.clone()),
        prepared[1].as_ref().map(|job| job.output.clone())
    );
}

#[test]
fn retagging_keeps_each_file_in_its_own_format() {
    let job = prepare(
        "/music/track.flac",
        Some("/stick"),
        None,
        Ok(mp3_source()),
        &TargetFor::Keeping(transcrate::plan::MetadataPolicy::dj()),
        "/work",
    )
    .expect("prepare");
    assert_eq!(job.output, "/stick/track.flac");
    assert_eq!(job.plan.action, Action::Retag);
}

#[test]
fn ffmpeg_is_asked_quietly_and_never_waits() {
    let job = prepare(
        "/music/track.flac",
        None,
        None,
        Ok(mp3_source()),
        &TargetFor::Fixed(Target::cdj_safe()),
        "/work",
    )
    .expect("prepare");
    let args = ffmpeg_args(&job.plan, &job.input, &job.output);
    assert_eq!(&args[..6], ["-nostdin", "-v", "error", "-y", "-i", "/music/track.flac"]);
    assert_eq!(args.last().map(String::as_str), Some("/music/_transcrate/track.mp3"));
}

#[test]
fn a_silent_failure_says_how_ffmpeg_exited() {
    assert_eq!(
        ffmpeg_failure("  \n", "exit status: 1"),
        ConvertError::Failed {
            stderr: "it wrote nothing and exited with exit status: 1".to_owned()
        }
    );
    assert_eq!(
        ffmpeg_failure(" bad input \n", "exit status: 1"),
        ConvertError::Failed {
            stderr: "bad input".to_owned()
        }
    );
    assert_eq!(
        ffmpeg_failure("x", "1").message(),
        "ffmpeg could not write the output: x"
    );
}

#[test]
fn every_failure_says_what_went_wrong() {
    assert_eq!(
        ConvertError::NotRunnable {
            reason: "not found".to_owned()
        }
        .message(),
        "could not run ffmpeg: not found"
    );
    assert_eq!(
        ConvertError::CopyFailed {
            reason: "disk full".to_owned()
        }
        .message(),
        "could not copy the file: disk full"
    );
    assert_eq!(
        ConvertError::NoOutputFolder {
            directory: "/stick/DJ".to_owned(),
            reason: "read-only".to_owned()
        }
        .message(),
        "could not create /stick/DJ: read-only"
    );
    assert_eq!(
        PrepareError::OverSource {
            path: "/m/a.wav".to_owned(),
            other: "/m/a.mp3".to_owned()
        }
        .message(),
        "/m/a.wav would be written over /m/a.mp3, which this run is reading"
    );
    assert_eq!(
        PrepareError::Destination(transcrate::files::PathError::Nameless("/".to_owned())).message(),
        "/ has no file name"
    );
}

#[test]
fn an_output_over_another_source_becomes_an_error() {
    let found = Found {
        files: vec!["/music/_transcrate/mix.mp3".to_owned(), "/music/mix.wav".to_owned()],
        unreadable: Vec::new(),
        roots: Vec::new(),
    };
    let source = AudioSpec {
        codec: Codec::Mp3,
        sample_rate_hz: 44_100,
        bit_depth: None,
        bitrate_kbps: Some(320),
    };
    let prepared = prepare_all(
        &found,
        None,
        vec![Ok(source), Ok(mp3_source())],
        &TargetFor::Fixed(Target::cdj_safe()),
        "/work",
        false,
    );
    assert_eq!(
        prepared[0].as_ref().map(|job| job.output.clone()),
        Ok("/music/_transcrate/_transcrate/mix.mp3".to_owned())
    );
    assert_eq!(
        prepared[1].as_ref().expect_err("over a source"),
        &PrepareError::OverSource {
            path: "/music/mix.wav".to_owned(),
            other: "/music/_transcrate/mix.mp3".to_owned()
        }
    );
}

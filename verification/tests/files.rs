use std::path::Path;

use transcrate::device::Codec;
use transcrate::files::{
    Entry, Found, Handed, OUTPUT_FOLDER, PathError, PreviousOutput, Sweep, extension_for,
    is_audio, output_path, sort_paths,
};

/// A sweep run against a made-up tree: `tree` maps a folder to its listing,
/// and a folder missing from it would not open.
fn sweep(handed: &[(&str, bool)], previous: PreviousOutput, tree: &[(&str, Vec<Entry>)]) -> Found {
    let handed = handed
        .iter()
        .map(|(path, is_folder)| Handed {
            path: (*path).to_owned(),
            is_folder: *is_folder,
        })
        .collect();
    let mut sweep = Sweep::begin(handed, previous);
    while let Some(folder) = sweep.next_folder() {
        let listing = tree
            .iter()
            .find(|(name, _)| *name == folder)
            .map(|(_, entries)| entries.clone());
        sweep.listed(&folder, listing);
    }
    sweep.finish()
}

fn names(found: &Found) -> Vec<String> {
    found
        .files
        .iter()
        .map(|path| {
            Path::new(path)
                .file_name()
                .expect("name")
                .to_string_lossy()
                .into_owned()
        })
        .collect()
}

fn folder(path: &str) -> Entry {
    Entry::Folder(path.to_owned())
}

fn other(path: &str) -> Entry {
    Entry::Other(path.to_owned())
}

#[test]
fn a_directory_expands_to_the_audio_inside_it() {
    let found = sweep(
        &[("/m", true)],
        PreviousOutput::Skip,
        &[
            (
                "/m",
                vec![
                    folder("/m/sub"),
                    other("/m/a.wav"),
                    other("/m/cover.jpg"),
                    other("/m/notes.txt"),
                ],
            ),
            ("/m/sub", vec![other("/m/sub/b.flac")]),
        ],
    );
    assert_eq!(names(&found), ["a.wav", "b.flac"]);
    assert_eq!(found.roots, ["/m"]);
}

#[test]
fn only_converting_skips_a_previous_runs_output() {
    let output = format!("/m/{OUTPUT_FOLDER}");
    let inside = format!("{output}/track.mp3");
    let tree = [
        ("/m", vec![folder(&output), other("/m/track.wav")]),
        (output.as_str(), vec![other(&inside)]),
    ];
    assert_eq!(
        names(&sweep(&[("/m", true)], PreviousOutput::Skip, &tree)),
        ["track.wav"]
    );
    assert_eq!(
        names(&sweep(&[("/m", true)], PreviousOutput::Include, &tree)),
        ["track.mp3", "track.wav"]
    );
}

#[test]
fn a_link_to_a_track_is_still_a_track() {
    let found = sweep(
        &[("/Library", true)],
        PreviousOutput::Skip,
        &[("/Library", vec![other("/Library/linked.wav")])],
    );
    assert_eq!(found.files, ["/Library/linked.wav"]);
}

#[test]
fn a_folder_that_will_not_open_is_named_rather_than_skipped() {
    let found = sweep(
        &[("/m", true)],
        PreviousOutput::Skip,
        &[("/m", vec![other("/m/visible.wav"), folder("/m/shut")])],
    );
    assert_eq!(found.files.len(), 1, "what was reached is still found");
    assert_eq!(found.unreadable, ["/m/shut"]);
}

#[test]
fn a_folder_that_gives_up_part_of_itself_is_named_too() {
    let found = sweep(
        &[("/m", true)],
        PreviousOutput::Skip,
        &[("/m", vec![other("/m/a.wav"), Entry::Unreadable])],
    );
    assert_eq!(found.files, ["/m/a.wav"]);
    assert_eq!(found.unreadable, ["/m"]);
}

#[test]
fn a_single_named_file_is_taken_as_given() {
    let found = sweep(&[("/m/no-extension", false)], PreviousOutput::Skip, &[]);
    assert_eq!(found.files, ["/m/no-extension"]);
}

#[test]
fn several_paths_at_once_keep_only_the_audio() {
    let handed: Vec<_> = ["a.wav", "b.flac", "cover.jpg", "playlist.m3u", "notes.txt"]
        .iter()
        .map(|name| (*name, false))
        .collect();
    let found = sweep(&handed, PreviousOutput::Skip, &[]);
    assert_eq!(names(&found), ["a.wav", "b.flac"]);
}

#[test]
fn found_files_come_out_in_path_order() {
    let sorted = sort_paths(vec![
        "/b/x.wav".to_owned(),
        "/a/z.wav".to_owned(),
        "/a/y.wav".to_owned(),
        "/a.wav".to_owned(),
    ]);
    assert_eq!(sorted, ["/a/y.wav", "/a/z.wav", "/a.wav", "/b/x.wav"]);
}

#[test]
fn an_extension_is_recognised_whatever_its_case() {
    assert!(is_audio("TRACK.WAV"));
    assert!(is_audio("track.Flac"));
    assert!(!is_audio("cover.jpg"));
    assert!(!is_audio("no-extension"));
    assert!(!is_audio(".wav"));
}

#[test]
fn output_lands_in_a_folder_beside_the_input() {
    let output = output_path("/music/track.flac", None, None, Codec::Mp3, "/work").expect("path");
    assert_eq!(Path::new(&output), Path::new("/music/_transcrate/track.mp3"));
}

#[test]
fn a_named_folder_is_used_as_given() {
    let output = output_path(
        "/music/track.flac",
        Some("/stick/DJ"),
        None,
        Codec::PcmAiff,
        "/work",
    )
    .expect("path");
    assert_eq!(Path::new(&output), Path::new("/stick/DJ/track.aiff"));
}

#[test]
fn a_swept_folder_keeps_its_shape_under_one_output_folder() {
    let base = "/music/Set B";

    assert_eq!(
        Path::new(&output_path("/music/Set B/near.wav", None, Some(base), Codec::Mp3, "/work").expect("path")),
        Path::new("/music/Set B/_transcrate/near.mp3"),
    );

    assert_eq!(
        Path::new(
            &output_path(
                "/music/Set B/2024/Live/TooDeep/far.wav",
                None,
                Some(base),
                Codec::Mp3,
                "/work",
            )
            .expect("path")
        ),
        Path::new("/music/Set B/_transcrate/2024/Live/TooDeep/far.mp3"),
    );
}

#[test]
fn a_named_folder_holds_the_same_shape() {
    let output = output_path(
        "/music/Set B/2024/far.wav",
        Some("/stick/DJ"),
        Some("/music/Set B"),
        Codec::Mp3,
        "/work",
    )
    .expect("path");
    assert_eq!(Path::new(&output), Path::new("/stick/DJ/2024/far.mp3"));
}

#[test]
fn writing_over_the_source_is_refused() {
    let refused = output_path("/music/track.mp3", Some("/music"), None, Codec::Mp3, "/work");
    assert!(matches!(refused, Err(PathError::WouldOverwriteSource(_))));
}

#[test]
fn a_path_naming_no_file_has_nowhere_to_go() {
    let refused = output_path("/", None, None, Codec::Mp3, "/work");
    assert_eq!(refused, Err(PathError::Nameless("/".to_owned())));
}

#[test]
fn a_relative_input_lands_beside_itself() {
    let output = output_path("track.wav", None, None, Codec::Flac, "/work").expect("path");
    assert_eq!(Path::new(&output), Path::new("_transcrate/track.flac"));
}

#[test]
fn aac_and_alac_share_an_extension() {
    assert_eq!(extension_for(Codec::AacLc), "m4a");
    assert_eq!(extension_for(Codec::Alac), "m4a");
}

#[test]
fn the_nearest_root_is_the_base() {
    let found = Found {
        files: Vec::new(),
        unreadable: Vec::new(),
        roots: vec!["/music".to_owned(), "/music/Sets".to_owned()],
    };
    assert_eq!(found.base_of("/music/Sets/a.wav"), Some("/music/Sets"));
    assert_eq!(found.base_of("/music/b.wav"), Some("/music"));
    assert_eq!(found.base_of("/elsewhere/c.wav"), None);
}

#[test]
fn a_link_back_up_the_tree_is_not_followed() {
    // A link reads as something other than a folder, so it is never listed.
    let found = sweep(
        &[("/d/Music", true)],
        PreviousOutput::Skip,
        &[
            ("/d/Music", vec![folder("/d/Music/Sets"), other("/d/Music/track.wav")]),
            ("/d/Music/Sets", vec![other("/d/Music/Sets/back")]),
        ],
    );
    assert_eq!(found.files.len(), 1, "found: {found:?}");
    assert!(found.files[0].ends_with("track.wav"));
}

#[test]
fn the_whole_stem_names_the_result() {
    let output = output_path("/music/Vol. 2.wav", None, None, Codec::Mp3, "/work").expect("path");
    assert_eq!(Path::new(&output), Path::new("/music/_transcrate/Vol. 2.mp3"));
}

#[test]
fn writing_over_the_source_is_refused_however_it_is_spelled() {
    let refused = output_path("track.mp3", Some("/music"), None, Codec::Mp3, "/music");
    assert_eq!(
        refused,
        Err(PathError::WouldOverwriteSource("track.mp3".to_owned()))
    );
    let refused = output_path("/music/./sets/../track.mp3", Some("/music"), None, Codec::Mp3, "/");
    assert!(matches!(refused, Err(PathError::WouldOverwriteSource(_))));
    assert!(output_path("track.mp3", Some("/music"), None, Codec::Mp3, "/elsewhere").is_ok());
}

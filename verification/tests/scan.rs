use transcrate::device::{by_id, devices};
use transcrate::probe::ProbeError;
use transcrate::compat::AudioSpec;
use transcrate::device::Codec;
use transcrate::scan::{Contents, Kind, Limits, Listed, Walk, judge};

/// A walk run against a made-up tree: `tree` maps a folder to its listing,
/// and a folder missing from it would not open.
fn walk(root: &str, limits: Limits, tree: &[(String, Vec<Listed>)]) -> Contents {
    let mut walk = Walk::begin(root, limits);
    while let Some(folder) = walk.next_folder() {
        let listing = tree
            .iter()
            .find(|(name, _)| *name == folder)
            .map(|(_, entries)| entries.clone());
        walk.listed(listing);
    }
    walk.finish()
}

fn entry(path: &str, kind: Kind) -> Listed {
    Listed {
        path: path.to_owned(),
        kind,
    }
}

/// `levels` folders nested under `root`, the last holding `leaf`.
fn nest(root: &str, levels: usize, leaf: &str) -> Vec<(String, Vec<Listed>)> {
    let mut tree = Vec::new();
    let mut path = root.to_owned();
    for level in 0..levels {
        let next = format!("{path}/level-{level}");
        tree.push((path.clone(), vec![entry(&next, Kind::Folder)]));
        path = next;
    }
    let file = format!("{path}/{leaf}");
    tree.push((path, vec![entry(&file, Kind::File)]));
    tree
}

const EVERY_PLAYER: Limits = Limits {
    folder_depth: 8,
    entries_per_folder: Some(10_000),
};

#[test]
fn nesting_is_counted_from_the_root() {
    let contents = walk("/d", EVERY_PLAYER, &nest("/d", 7, "deep.wav"));

    assert_eq!(contents.deepest, 8);
    assert!(contents.unreachable.is_empty());
    assert_eq!(contents.tracks.len(), 1);
}

#[test]
fn a_folder_past_the_limit_is_named_and_not_walked() {
    let contents = walk("/d", EVERY_PLAYER, &nest("/d", 8, "lost.wav"));

    assert_eq!(contents.unreachable.len(), 1);
    assert!(contents.unreachable[0].ends_with("level-7"));
    assert!(contents.tracks.is_empty());
    assert_eq!(contents.deepest, 9);
}

#[test]
fn only_what_the_browser_lists_counts_towards_the_limit() {
    let limits = Limits {
        folder_depth: 8,
        entries_per_folder: Some(2),
    };
    let mut listing: Vec<Listed> = ["a.wav", "b.wav", "c.jpg", "d.jpg", "e.txt"]
        .iter()
        .map(|name| entry(&format!("/d/{name}"), Kind::File))
        .collect();

    let tree = vec![("/d".to_owned(), listing.clone())];
    assert!(walk("/d", limits, &tree).crowded.is_empty());

    listing.push(entry("/d/f.wav", Kind::File));
    let tree = vec![("/d".to_owned(), listing)];
    let contents = walk("/d", limits, &tree);

    assert_eq!(contents.crowded.len(), 1);
    assert_eq!(contents.crowded[0].entries, 3);
    assert_eq!(contents.other_files, 3);
}

#[test]
fn what_the_operating_system_leaves_behind_is_ignored() {
    let tree = vec![(
        "/d".to_owned(),
        vec![
            entry("/d/.Spotlight-V100", Kind::Folder),
            entry("/d/.DS_Store", Kind::File),
            entry("/d/track.wav", Kind::File),
        ],
    )];
    let contents = walk("/d", EVERY_PLAYER, &tree);

    assert_eq!(contents.folders, 0);
    assert_eq!(contents.other_files, 0);
    assert_eq!(contents.tracks.len(), 1);
}

#[test]
fn a_folder_that_will_not_open_is_a_gap() {
    let tree = vec![(
        "/d".to_owned(),
        vec![entry("/d/shut", Kind::Folder), entry("/d/a.wav", Kind::File)],
    )];
    let contents = walk("/d", EVERY_PLAYER, &tree);
    assert_eq!(contents.unreadable, ["/d/shut"]);
    assert_eq!(contents.folders, 1);
    assert!(contents.has_gaps());
}

#[test]
fn links_are_not_listed() {
    let tree = vec![(
        "/d".to_owned(),
        vec![entry("/d/link.wav", Kind::Other), entry("/d/a.wav", Kind::File)],
    )];
    let contents = walk("/d", EVERY_PLAYER, &tree);
    assert_eq!(contents.tracks, ["/d/a.wav"]);
    assert!(!contents.has_gaps());
}

#[test]
fn the_first_player_to_give_way_sets_the_limit() {
    let every = devices();

    assert_eq!(Limits::strictest_of(&every), Some(EVERY_PLAYER));
    assert_eq!(Limits::strictest_of(&[]), None);
}

#[test]
fn a_track_is_judged_against_every_player() {
    let players = vec![by_id("xdj-rr").expect("rr"), by_id("cdj-3000").expect("3000")];
    let hi_res = AudioSpec {
        codec: Codec::Flac,
        sample_rate_hz: 96_000,
        bit_depth: Some(24),
        bitrate_kbps: None,
    };
    let verdicts = judge(
        &vec!["/d/a.flac".to_owned(), "/d/b.mp3".to_owned()],
        vec![Ok(hi_res), Err(ProbeError::NoAudioStream)],
        &players,
    );
    assert_eq!(verdicts.len(), 2);
    assert_eq!(verdicts[0].refused_by.len(), 1);
    assert_eq!(verdicts[0].refused_by[0].player.id, "xdj-rr");
    assert!(!verdicts[0].plays());
    assert_eq!(
        verdicts[1].error.as_deref(),
        Some("the file contains no audio stream")
    );
    assert!(!verdicts[1].plays());
}

#[test]
fn a_depth_of_nothing_leaves_only_the_root_in_reach() {
    let limits = Limits {
        folder_depth: 0,
        entries_per_folder: None,
    };
    let tree = vec![(
        "/d".to_owned(),
        vec![entry("/d/a.wav", Kind::File), entry("/d/Sets", Kind::Folder)],
    )];
    let contents = walk("/d", limits, &tree);

    assert_eq!(contents.tracks, ["/d/a.wav"]);
    assert_eq!(contents.unreachable, ["/d/Sets"]);
    assert_eq!(contents.deepest, 2);
}

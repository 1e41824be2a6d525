//! What a drive holds, judged the way a player's browser sees it.
//!
//! A player reads a stick by walking it: so many folders deep and no
//! further, so many entries to a folder and no more. The walk here counts
//! what such a browser would list, names what it would never reach, and
//! leaves the reading of each track to the judging that follows.

use vstd::prelude::*;

use crate::compat::{AudioSpec, Issue, check, spec_check};
use crate::probe::{ProbeError, spec_probe_message};
use crate::device::DeviceProfile;
use crate::files::{sort_paths, sorted_paths, spec_is_audio, is_audio};
use crate::path::{components, is_normal_exec, spec_components, spec_file_name};
use crate::text::{push_arg, views};

verus! {

/// What the strictest of a set of players will browse.
#[derive(Debug, Clone, Copy, PartialEq, Eq, Structural)]
pub struct Limits {
    /// Folders deep, counted from the root.
    pub folder_depth: u8,
    /// Entries listed in one folder, when any player has a limit.
    pub entries_per_folder: Option<u32>,
}

impl Limits {
    /// The tightest limits among `players`, or none when no player is named.
    pub fn strictest_of(players: &[DeviceProfile]) -> (limits: Option<Limits>)
        ensures
            players@.len() == 0 <==> limits is None,
            limits matches Some(l) ==> {
                &&& exists|i: int| 0 <= i < players@.len() && (#[trigger] players@[i]).max_folder_depth == l.folder_depth
                &&& forall|i: int| 0 <= i < players@.len() ==> l.folder_depth <= (#[trigger] players@[i]).max_folder_depth
                &&& match l.entries_per_folder {
                    Some(most) => {
                        &&& exists|i: int| 0 <= i < players@.len() && (#[trigger] players@[i]).max_files_per_folder == Some(most)
                        &&& forall|i: int| 0 <= i < players@.len() ==> ((#[trigger] players@[i]).max_files_per_folder matches Some(m) ==> most <= m)
                    },
                    None => forall|i: int| 0 <= i < players@.len() ==> (#[trigger] players@[i]).max_files_per_folder is None,
                }
            },
    {
        let n = players.len();
        if n == 0 {
            return None;
        }
        let mut depth: u8 = players[0].max_folder_depth;
        let mut entries: Option<u32> = None;
        let mut i: usize = 0;
        while i < n
            invariant
                n == players@.len(),
                n > 0,
                i <= n,
                exists|j: int| 0 <= j < n && (#[trigger] players@[j]).max_folder_depth == depth,
                forall|j: int| 0 <= j < i ==> depth <= (#[trigger] players@[j]).max_folder_depth,
                match entries {
                    Some(most) => {
                        &&& exists|j: int| 0 <= j < i && (#[trigger] players@[j]).max_files_per_folder == Some(most)
                        &&& forall|j: int| 0 <= j < i ==> ((#[trigger] players@[j]).max_files_per_folder matches Some(m) ==> most <= m)
                    },
                    None => forall|j: int| 0 <= j < i ==> (#[trigger] players@[j]).max_files_per_folder is None,
                },
            decreases n - i,
        {
            let player = &players[i];
            if player.max_folder_depth < depth {
                depth = player.max_folder_depth;
            }
            match player.max_files_per_folder {
                Some(m) => {
                    let keep = match entries {
                        Some(most) => most <= m,
                        None => false,
                    };
                    if !keep {
                        entries = Some(m);
                    }
                },
                None => {},
            }
            i += 1;
        }
        Some(Limits { folder_depth: depth, entries_per_folder: entries })
    }
}

/// A folder holding more entries than the browser lists.
#[derive(Debug, Clone, PartialEq, Eq)]
pub struct Crowded {
    pub folder: String,
    pub entries: u32,
}

/// What a walk of a drive found, counted as a browser would list it.
#[derive(Debug, Clone, Default, PartialEq, Eq)]
pub struct Contents {
    /// Every track within reach, in path order.
    pub tracks: Vec<String>,
    /// Files a player will not list: artwork, playlists, notes.
    pub other_files: usize,
    /// Folders within reach, the root not counted.
    pub folders: usize,
    /// How deep the tree goes, the root's own level being one.
    pub deepest: u8,
    /// Folders past the depth limit, which the browser never opens.
    pub unreachable: Vec<String>,
    /// Folders holding more entries than the browser lists.
    pub crowded: Vec<Crowded>,
    /// Folders that would not open, so nothing inside them was counted.
    pub unreadable: Vec<String>,
}

impl Contents {
    /// Whether anything left a hole in the walk: a folder out of reach, one
    /// cut short, or one that would not open.
    pub fn has_gaps(&self) -> (gaps: bool)
        ensures
            gaps == (self.unreadable@.len() > 0 || self.unreachable@.len() > 0
                || self.crowded@.len() > 0),
    {
        self.unreadable.len() > 0 || self.unreachable.len() > 0 || self.crowded.len() > 0
    }
}

/// What an entry of a folder is, links not followed.
#[derive(Debug, Clone, Copy, PartialEq, Eq, Structural)]
pub enum Kind {
    Folder,
    File,
    /// A link, a device, anything a browser does not list.
    Other,
}

/// One entry of a folder's listing.
#[derive(Debug, Clone)]
pub struct Listed {
    pub path: String,
    pub kind: Kind,
}

/// A name the operating system leaves behind, such as `.DS_Store`: players
/// hide these, so they count for nothing.
pub open spec fn is_hidden(path: Seq<char>) -> bool {
    match spec_file_name(spec_components(path)) {
        Some(name) => name.len() > 0 && name[0] == '.',
        None => false,
    }
}

/// A folder's listing tallied: what the browser lists, the subfolders, the
/// tracks and the other files.
pub struct Tally {
    pub listed: nat,
    pub subfolders: Seq<Seq<char>>,
    pub tracks: Seq<Seq<char>>,
    pub other_files: nat,
}

pub open spec fn tally(entries: Seq<Listed>) -> Tally
    decreases entries.len(),
{
    if entries.len() == 0 {
        Tally { listed: 0, subfolders: Seq::empty(), tracks: Seq::empty(), other_files: 0 }
    } else {
        let t = tally(entries.drop_last());
        let e = entries.last();
        if is_hidden(e.path@) {
            t
        } else {
            match e.kind {
                Kind::Folder => Tally { listed: t.listed + 1, subfolders: t.subfolders.push(e.path@), ..t },
                Kind::File => if spec_is_audio(e.path@) {
                    Tally { listed: t.listed + 1, tracks: t.tracks.push(e.path@), ..t }
                } else {
                    Tally { other_files: t.other_files + 1, ..t }
                },
                Kind::Other => t,
            }
        }
    }
}

/// Where a walk stands, as plain sequences. `pending` is a stack: its last
/// folder is listed next.
pub struct WalkState {
    pub limits: Limits,
    pub pending: Seq<(Seq<char>, u8)>,
    pub current: Option<(Seq<char>, u8)>,
    pub tracks: Seq<Seq<char>>,
    pub other_files: nat,
    pub folders: nat,
    pub deepest: u8,
    pub unreachable: Seq<Seq<char>>,
    pub crowded: Seq<(Seq<char>, u32)>,
    pub unreadable: Seq<Seq<char>>,
}

pub open spec fn max_u8(a: u8, b: u8) -> u8 {
    if a < b {
        b
    } else {
        a
    }
}

/// `folders`, each at `level`, in reverse so that the first is on top.
pub open spec fn stacked(folders: Seq<Seq<char>>, level: u8) -> Seq<(Seq<char>, u8)> {
    folders.reverse().map_values(|f: Seq<char>| (f, level))
}

/// The listing of the current folder taken in. Subfolders are taken in path
/// order: at the depth limit each is named as unreachable, and below it each
/// is walked in turn, one level further down.
pub open spec fn after_walk_listing(s: WalkState, entries: Option<Seq<Listed>>) -> WalkState {
    match s.current {
        None => s,
        Some((folder, level)) => {
            let s = WalkState { current: None, ..s };
            match entries {
                None => WalkState { unreadable: s.unreadable.push(folder), ..s },
                Some(es) => {
                    let t = tally(es);
                    let crowded = match s.limits.entries_per_folder {
                        Some(most) => if t.listed > most {
                            s.crowded.push((folder, t.listed as u32))
                        } else {
                            s.crowded
                        },
                        None => s.crowded,
                    };
                    let subs = sorted_paths(t.subfolders);
                    let counted = WalkState {
                        tracks: s.tracks + t.tracks,
                        other_files: s.other_files + t.other_files,
                        folders: s.folders + t.subfolders.len(),
                        crowded,
                        ..s
                    };
                    if subs.len() == 0 {
                        counted
                    } else if level >= s.limits.folder_depth {
                        WalkState {
                            deepest: max_u8(counted.deepest, (level + 1) as u8),
                            unreachable: counted.unreachable + subs,
                            ..counted
                        }
                    } else {
                        WalkState { pending: counted.pending + stacked(subs, (level + 1) as u8), ..counted }
                    }
                },
            }
        },
    }
}

/// What every walk keeps true: each folder waiting is within the depth
/// limit, which stays below the largest level a `u8` holds.
/// A level the walk can stand at: the root's, or one the limit lets it reach.
pub open spec fn reachable_level(level: u8, limits: Limits) -> bool {
    1 <= level && (level == 1 || level <= limits.folder_depth)
}

pub open spec fn walk_invariant(s: WalkState) -> bool {
    &&& s.limits.folder_depth < 255
    &&& forall|i: int| 0 <= i < s.pending.len() ==> reachable_level(#[trigger] s.pending[i].1, s.limits)
    &&& s.current matches Some((_, level)) ==> reachable_level(level, s.limits)
}

/// Walking a drive one folder listing at a time: the caller lists each
/// folder [`Walk::next_folder`] names and hands the listing back to
/// [`Walk::listed`].
pub struct Walk {
    limits: Limits,
    pending: Vec<(String, u8)>,
    current: Option<(String, u8)>,
    tracks: Vec<String>,
    other_files: usize,
    folders: usize,
    deepest: u8,
    unreachable: Vec<String>,
    crowded: Vec<Crowded>,
    unreadable: Vec<String>,
}

pub open spec fn pending_views(p: Seq<(String, u8)>) -> Seq<(Seq<char>, u8)> {
    p.map_values(|e: (String, u8)| (e.0@, e.1))
}

pub open spec fn crowded_views(c: Seq<Crowded>) -> Seq<(Seq<char>, u32)> {
    c.map_values(|e: Crowded| (e.folder@, e.entries))
}

impl Walk {
    pub closed spec fn state(&self) -> WalkState {
        WalkState {
            limits: self.limits,
            pending: pending_views(self.pending@),
            current: match self.current {
                Some((f, l)) => Some((f@, l)),
                None => None,
            },
            tracks: views(self.tracks@),
            other_files: self.other_files as nat,
            folders: self.folders as nat,
            deepest: self.deepest,
            unreachable: views(self.unreachable@),
            crowded: crowded_views(self.crowded@),
            unreadable: views(self.unreadable@),
        }
    }

    /// A walk from `root`, which sits at level one.
    pub fn begin(root: &str, limits: Limits) -> (walk: Walk)
        requires
            limits.folder_depth < 255,
        ensures
            walk.state() == (WalkState {
                limits,
                pending: seq![(root@, 1u8)],
                current: None,
                tracks: Seq::empty(),
                other_files: 0,
                folders: 0,
                deepest: 0,
                unreachable: Seq::empty(),
                crowded: Seq::empty(),
                unreadable: Seq::empty(),
            }),
            walk_invariant(walk.state()),
    {
        let mut pending: Vec<(String, u8)> = Vec::new();
        pending.push((root.to_owned(), 1));
        let walk = Walk {
            limits,
            pending,
            current: None,
            tracks: Vec::new(),
            other_files: 0,
            folders: 0,
            deepest: 0,
            unreachable: Vec::new(),
            crowded: Vec::new(),
            unreadable: Vec::new(),
        };
        assert(pending_views(walk.pending@) =~= seq![(root@, 1u8)]);
        assert(views(walk.tracks@) =~= Seq::<Seq<char>>::empty());
        assert(views(walk.unreachable@) =~= Seq::<Seq<char>>::empty());
        assert(views(walk.unreadable@) =~= Seq::<Seq<char>>::empty());
        assert(crowded_views(walk.crowded@) =~= Seq::<(Seq<char>, u32)>::empty());
        walk
    }

    /// The next folder to list, or none once the walk is done. Reaching a
    /// folder counts its level towards the depth.
    pub fn next_folder(&mut self) -> (folder: Option<String>)
        requires
            walk_invariant(old(self).state()),
        ensures
            ({
                let s = old(self).state();
                if s.pending.len() > 0 {
                    let (f, level) = s.pending.last();
                    &&& folder matches Some(name) && name@ == f
                    &&& final(self).state() == (WalkState {
                        pending: s.pending.drop_last(),
                        current: Some((f, level)),
                        deepest: max_u8(s.deepest, level),
                        ..s
                    })
                } else {
                    folder is None && final(self).state() == (WalkState { current: None, ..s })
                }
            }),
            walk_invariant(final(self).state()),
    {
        let ghost s = self.state();
        match self.pending.pop() {
            Some((folder, level)) => {
                assert(pending_views(self.pending@) =~= s.pending.drop_last());
                assert(s.pending.last() == (folder@, level));
                if self.deepest < level {
                    self.deepest = level;
                }
                self.current = Some((folder.clone(), level));
                Some(folder)
            },
            None => {
                self.current = None;
                None
            },
        }
    }
}


/// Whether the operating system left `path` behind.
fn hidden(path: &str) -> (h: bool)
    ensures
        h == is_hidden(path@),
{
    let cs = components(path);
    let n = cs.len();
    if n == 0 || !is_normal_exec(cs[n - 1].as_str()) {
        return false;
    }
    let name = cs[n - 1].as_str();
    name.unicode_len() > 0 && name.get_char(0) == '.'
}

/// The entries of one listing, tallied.
fn tally_of(entries: &Vec<Listed>) -> (counted: (u32, Vec<String>, Vec<String>, usize))
    requires
        entries@.len() <= u32::MAX,
    ensures
        ({
            let t = tally(entries@);
            &&& counted.0 == t.listed
            &&& views(counted.1@) == t.subfolders
            &&& views(counted.2@) == t.tracks
            &&& counted.3 == t.other_files
            &&& t.listed + t.other_files <= entries@.len()
            &&& t.subfolders.len() <= t.listed
        }),
{
    let n = entries.len();
    let mut listed: u32 = 0;
    let mut subs: Vec<String> = Vec::new();
    let mut tracks: Vec<String> = Vec::new();
    let mut others: usize = 0;
    let mut i: usize = 0;
    while i < n
        invariant
            n == entries@.len(),
            n <= u32::MAX,
            i <= n,
            ({
                let t = tally(entries@.take(i as int));
                &&& listed == t.listed
                &&& views(subs@) == t.subfolders
                &&& views(tracks@) == t.tracks
                &&& others == t.other_files
                &&& t.listed + t.other_files <= i
                &&& t.subfolders.len() <= t.listed
            }),
        decreases n - i,
    {
        proof {
            let t = entries@.take(i + 1);
            assert(t.drop_last() =~= entries@.take(i as int));
            assert(t.last() == entries@[i as int]);
        }
        let entry = &entries[i];
        if !hidden(entry.path.as_str()) {
            match entry.kind {
                Kind::Folder => {
                    listed += 1;
                    push_arg(&mut subs, entry.path.as_str());
                },
                Kind::File => {
                    if is_audio(entry.path.as_str()) {
                        listed += 1;
                        push_arg(&mut tracks, entry.path.as_str());
                    } else {
                        others += 1;
                    }
                },
                Kind::Other => {},
            }
        }
        i += 1;
    }
    assert(entries@.take(n as int) =~= entries@);
    (listed, subs, tracks, others)
}

impl Walk {
    /// Whether a listing of `entries` entries can be taken in: its count fits
    /// a `u32`, and the walk's tallies have room for it.
    pub fn can_take(&self, entries: usize) -> (room: bool)
        ensures
            room == (entries <= u32::MAX && self.state().other_files + entries <= usize::MAX
                && self.state().folders + entries <= usize::MAX),
    {
        entries <= u32::MAX as usize && entries <= usize::MAX - self.other_files && entries
            <= usize::MAX - self.folders
    }

    /// Takes in the listing of the folder last named: its entries, or none
    /// when it would not open.
    pub fn listed(&mut self, entries: Option<Vec<Listed>>)
        requires
            walk_invariant(old(self).state()),
            entries matches Some(es) ==> {
                &&& es@.len() <= u32::MAX
                &&& old(self).state().other_files + es@.len() <= usize::MAX
                &&& old(self).state().folders + es@.len() <= usize::MAX
            },
        ensures
            final(self).state() == after_walk_listing(
                old(self).state(),
                match entries {
                    Some(es) => Some(es@),
                    None => None,
                },
            ),
            walk_invariant(final(self).state()),
    {
        let ghost s0 = self.state();
        let (folder, level) = match &self.current {
            Some((f, l)) => (f.clone(), *l),
            None => return,
        };
        self.current = None;
        let ghost s = self.state();
        assert(s == (WalkState { current: None, ..s0 }));
        let entries = match entries {
            Some(entries) => entries,
            None => {
                push_arg(&mut self.unreadable, folder.as_str());
                return;
            },
        };
        let (listed, subs, mut tracks, others) = tally_of(&entries);
        let ghost t = tally(entries@);
        match self.limits.entries_per_folder {
            Some(most) => {
                if listed > most {
                    let ghost before = crowded_views(self.crowded@);
                    self.crowded.push(Crowded { folder: folder.clone(), entries: listed });
                    assert(crowded_views(self.crowded@) =~= before.push((folder@, listed)));
                }
            },
            None => {},
        }
        let ghost before_tracks = views(self.tracks@);
        let ghost added = views(tracks@);
        self.tracks.append(&mut tracks);
        assert(views(self.tracks@) =~= before_tracks + added);
        self.other_files = self.other_files + others;
        self.folders = self.folders + subs.len();
        let mut sorted = sort_paths(subs);
        let m = sorted.len();
        if m == 0 {
        } else if level >= self.limits.folder_depth {
            let next = level + 1;
            if self.deepest < next {
                self.deepest = next;
            }
            let ghost base = views(self.unreachable@);
            let ghost sv = views(sorted@);
            self.unreachable.append(&mut sorted);
            assert(views(self.unreachable@) =~= base + sv);
        } else {
            let next = level + 1;
            let ghost sv = views(sorted@);
            let mut stack: Vec<(String, u8)> = Vec::new();
            let mut j: usize = m;
            assert(sv.skip(m as int) =~= Seq::<Seq<char>>::empty());
            assert(stacked(sv.skip(m as int), next) =~= pending_views(stack@));
            while j > 0
                invariant
                    m == sorted@.len(),
                    sv == views(sorted@),
                    j <= m,
                    pending_views(stack@) == stacked(sv.skip(j as int), next),
                decreases j,
            {
                let ghost before = pending_views(stack@);
                stack.push((sorted[j - 1].clone(), next));
                proof {
                    assert(pending_views(stack@) =~= before.push((sv[j - 1], next)));
                    assert(stacked(sv.skip(j - 1), next) =~= stacked(sv.skip(j as int), next).push(
                        (sv[j - 1], next),
                    ));
                }
                j -= 1;
            }
            assert(sv.skip(0) =~= sv);
            let ghost base = pending_views(self.pending@);
            let ghost added = pending_views(stack@);
            self.pending.append(&mut stack);
            assert(pending_views(self.pending@) =~= base + added);
            assert forall|i: int|
                0 <= i < added.len() implies reachable_level((#[trigger] added[i]).1, self.limits) by {
                assert(added[i].1 == next);
            }
        }
    }

    /// What the walk found, its tracks in path order.
    pub fn finish(self) -> (contents: Contents)
        ensures
            views(contents.tracks@) == sorted_paths(self.state().tracks),
            contents.other_files == self.state().other_files,
            contents.folders == self.state().folders,
            contents.deepest == self.state().deepest,
            views(contents.unreachable@) == self.state().unreachable,
            crowded_views(contents.crowded@) == self.state().crowded,
            views(contents.unreadable@) == self.state().unreadable,
    {
        Contents {
            tracks: sort_paths(self.tracks),
            other_files: self.other_files,
            folders: self.folders,
            deepest: self.deepest,
            unreachable: self.unreachable,
            crowded: self.crowded,
            unreadable: self.unreadable,
        }
    }
}


/// One player that will not take a track, and why.
#[derive(Debug, Clone)]
pub struct Refusal<'a> {
    pub player: &'a DeviceProfile,
    pub issues: Vec<Issue>,
}

/// What became of one track.
#[derive(Debug, Clone)]
pub struct Verdict<'a> {
    pub path: String,
    /// What the track holds, when it could be read.
    pub spec: Option<AudioSpec>,
    /// Every player that will not take it.
    pub refused_by: Vec<Refusal<'a>>,
    /// Why it could not be read.
    pub error: Option<String>,
}

impl<'a> Verdict<'a> {
    /// Whether every player asked about will take the track.
    pub fn plays(&self) -> (plays: bool)
        ensures
            plays == (self.error is None && self.refused_by@.len() == 0),
    {
        self.error.is_none() && self.refused_by.len() == 0
    }
}

/// The players among `players` that refuse `spec`, in order, each with its
/// reasons.
pub open spec fn spec_refusals(spec: AudioSpec, players: Seq<DeviceProfile>) -> Seq<(DeviceProfile, Seq<Issue>)>
    decreases players.len(),
{
    if players.len() == 0 {
        Seq::empty()
    } else {
        let earlier = spec_refusals(spec, players.drop_last());
        let issues = spec_check(spec, players.last());
        if issues.len() > 0 {
            earlier.push((players.last(), issues))
        } else {
            earlier
        }
    }
}

pub open spec fn refusal_views<'a>(refusals: Seq<Refusal<'a>>) -> Seq<(DeviceProfile, Seq<Issue>)> {
    refusals.map_values(|r: Refusal<'a>| (*r.player, r.issues@))
}

/// Every player among `players` that will not take `spec`, with its reasons.
pub fn refusals<'a>(spec: &AudioSpec, players: &'a [DeviceProfile]) -> (refused: Vec<Refusal<'a>>)
    ensures
        refusal_views(refused@) == spec_refusals(*spec, players@),
{
    let mut refused: Vec<Refusal<'a>> = Vec::new();
    let n = players.len();
    let mut i: usize = 0;
    while i < n
        invariant
            n == players@.len(),
            i <= n,
            refusal_views(refused@) == spec_refusals(*spec, players@.take(i as int)),
        decreases n - i,
    {
        proof {
            let t = players@.take(i + 1);
            assert(t.drop_last() =~= players@.take(i as int));
            assert(t.last() == players@[i as int]);
        }
        let issues = check(spec, &players[i]);
        if issues.len() > 0 {
            let ghost before = refusal_views(refused@);
            refused.push(Refusal { player: &players[i], issues });
            assert(refusal_views(refused@) =~= before.push((players@[i as int], spec_check(*spec, players@[i as int]))));
        }
        i += 1;
    }
    assert(players@.take(n as int) =~= players@);
    refused
}

/// The verdict on a track, given what reading it gave.
pub open spec fn verdict_matches<'a>(
    verdict: Verdict<'a>,
    path: Seq<char>,
    outcome: Result<AudioSpec, ProbeError>,
    players: Seq<DeviceProfile>,
) -> bool {
    &&& verdict.path@ == path
    &&& match outcome {
        Ok(spec) => {
            &&& verdict.spec == Some(spec)
            &&& refusal_views(verdict.refused_by@) == spec_refusals(spec, players)
            &&& verdict.error is None
        },
        Err(error) => {
            &&& verdict.spec is None
            &&& verdict.refused_by@.len() == 0
            &&& verdict.error matches Some(text) && text@ == spec_probe_message(error)
        },
    }
}

/// Judge each track against `players`, given what reading it gave: the
/// stream it holds, or why it could not be read.
pub fn judge<'a>(
    tracks: &Vec<String>,
    outcomes: Vec<Result<AudioSpec, ProbeError>>,
    players: &'a [DeviceProfile],
) -> (verdicts: Vec<Verdict<'a>>)
    requires
        outcomes@.len() == tracks@.len(),
    ensures
        verdicts@.len() == tracks@.len(),
        forall|i: int|
            0 <= i < tracks@.len() ==> verdict_matches(
                #[trigger] verdicts@[i],
                tracks@[i]@,
                outcomes@[i],
                players@,
            ),
{
    let mut verdicts: Vec<Verdict<'a>> = Vec::new();
    let n = tracks.len();
    let mut i: usize = 0;
    while i < n
        invariant
            n == tracks@.len(),
            n == outcomes@.len(),
            i <= n,
            verdicts@.len() == i,
            forall|j: int|
                0 <= j < i ==> verdict_matches(
                    #[trigger] verdicts@[j],
                    tracks@[j]@,
                    outcomes@[j],
                    players@,
                ),
        decreases n - i,
    {
        let path = tracks[i].clone();
        let verdict = match &outcomes[i] {
            Ok(spec) => Verdict {
                path,
                spec: Some(*spec),
                refused_by: refusals(spec, players),
                error: None,
            },
            Err(error) => Verdict {
                path,
                spec: None,
                refused_by: Vec::new(),
                error: Some(error.message()),
            },
        };
        verdicts.push(verdict);
        i += 1;
    }
    verdicts
}


/// A folder at the depth limit has its subfolders named as unreachable and
/// never queued: the walk goes no deeper than the browser does.
pub proof fn a_folder_past_the_limit_is_named_and_not_walked(s: WalkState, entries: Seq<Listed>)
    requires
        s.current matches Some((_, level)) && level >= s.limits.folder_depth,
    ensures
        after_walk_listing(s, Some(entries)).pending == s.pending,
        after_walk_listing(s, Some(entries)).unreachable == s.unreachable + sorted_paths(tally(entries).subfolders),
{
    if sorted_paths(tally(entries).subfolders).len() == 0 {
        assert(s.unreachable + sorted_paths(tally(entries).subfolders) =~= s.unreachable);
    }
}

/// Below the depth limit every subfolder is queued, one level further down,
/// and none is named as unreachable.
pub proof fn a_folder_within_the_limit_is_walked(
    s: WalkState,
    folder: Seq<char>,
    level: u8,
    entries: Seq<Listed>,
)
    requires
        s.current == Some((folder, level)),
        level < s.limits.folder_depth,
    ensures
        after_walk_listing(s, Some(entries)).unreachable == s.unreachable,
        after_walk_listing(s, Some(entries)).pending == s.pending + stacked(
            sorted_paths(tally(entries).subfolders),
            (level + 1) as u8,
        ),
{
    let subs = sorted_paths(tally(entries).subfolders);
    if subs.len() == 0 {
        assert(stacked(subs, (level + 1) as u8) =~= Seq::<(Seq<char>, u8)>::empty());
        assert(s.pending + stacked(subs, (level + 1) as u8) =~= s.pending);
    }
}

} // verus!

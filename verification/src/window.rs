//! The desktop window's side of things, as plain values: what its settings
//! name (a profile or a format, the comment and the artwork kept or not, the
//! players shown), and what it is shown back: a light per player for each
//! track, the tracks on a drive that some player refuses, and what became of
//! each file a conversion was asked for.

use vstd::prelude::*;

use crate::compat::{AudioSpec, Issue, check, plays, spec_check};
use crate::convert::{ConvertError, Job, spec_convert_message};
use crate::device::{DeviceProfile, by_id, devices, is_device_table, is_documented, is_known_id};
use crate::files::{copy_components, file_name_of};
use crate::path::{
    components, render, render_path, spec_components, spec_file_name, spec_parent,
    spec_strip_prefix, starts_with,
};
use crate::plan::{Artwork, MetadataPolicy, Target, format_codec, format_target, profile_named};
use crate::scan::Verdict;
use crate::text::views;

verus! {

/// The window's settings.
#[derive(Debug, Clone)]
pub struct Settings {
    /// A profile's name, or a format's.
    pub profile: String,
    pub keep_comment: bool,
    pub artwork: bool,
    /// Player ids; none means all of them.
    pub devices: Vec<String>,
}

impl Settings {
    /// The target the settings name: a profile, or failing that a format,
    /// with the comment kept or cleared and the artwork kept or dropped as
    /// asked.
    pub fn target(&self) -> (target: Result<Target, String>)
        ensures
            match target {
                Ok(t) => {
                    &&& (exists|base: Target|
                        (profile_named(self.profile@, base) || (!(self.profile@ == "cdj-safe"@
                            || self.profile@ == "lossless"@ || self.profile@ == "archive"@)
                            && format_target(self.profile@, base))) && t.codec == base.codec
                            && t.sample_rate == base.sample_rate && t.bit_depth == base.bit_depth
                            && t.bitrate_kbps == base.bitrate_kbps)
                    &&& t.metadata.clear@ == if self.keep_comment {
                        crate::plan::LYRICS_ONLY@
                    } else {
                        crate::plan::DJ_CLEARED@
                    }
                    &&& t.metadata.artwork == if self.artwork {
                        Artwork::Keep
                    } else {
                        Artwork::Remove
                    }
                },
                Err(message) => !(self.profile@ == "cdj-safe"@ || self.profile@ == "lossless"@
                    || self.profile@ == "archive"@) && format_codec(self.profile@) is None
                    && message@ == "no target named "@ + self.profile@,
            },
    {
        let base = match Target::by_name(self.profile.as_str()) {
            Some(t) => t,
            None => match Target::from_format(self.profile.as_str()) {
                Some(t) => t,
                None => {
                    let mut message = "no target named ".to_owned();
                    message.append(self.profile.as_str());
                    return Err(message);
                },
            },
        };
        assert(profile_named(self.profile@, base) || (!(self.profile@ == "cdj-safe"@
            || self.profile@ == "lossless"@ || self.profile@ == "archive"@) && format_target(
            self.profile@,
            base,
        )));
        let chosen = if self.keep_comment {
            MetadataPolicy::keeping_comments()
        } else {
            MetadataPolicy::dj()
        };
        let metadata = MetadataPolicy {
            clear: chosen.clear,
            artwork: if self.artwork {
                chosen.artwork
            } else {
                Artwork::Remove
            },
        };
        Ok(Target { metadata, ..base })
    }

    /// The players the settings name, in the order named; none named means
    /// all of them.
    pub fn players(&self) -> (players: Result<Vec<DeviceProfile>, String>)
        ensures
            self.devices@.len() == 0 ==> (players matches Ok(all) && is_device_table(all@)),
            self.devices@.len() > 0 ==> match players {
                Ok(named) => named@.len() == self.devices@.len() && forall|i: int|
                    0 <= i < self.devices@.len() ==> (#[trigger] named@[i]).id@ == self.devices@[i]@
                        && is_documented(named@[i]),
                Err(message) => exists|i: int|
                    0 <= i < self.devices@.len() && !is_known_id(#[trigger] self.devices@[i]@)
                        && (forall|j: int| 0 <= j < i ==> is_known_id(self.devices@[j]@))
                        && message@ == "no player named "@ + self.devices@[i]@,
            },
    {
        if self.devices.len() == 0 {
            return Ok(devices());
        }
        let n = self.devices.len();
        let mut named: Vec<DeviceProfile> = Vec::new();
        let mut i: usize = 0;
        while i < n
            invariant
                n == self.devices@.len(),
                i <= n,
                named@.len() == i,
                forall|j: int|
                    0 <= j < i ==> (#[trigger] named@[j]).id@ == self.devices@[j]@ && is_documented(named@[j]),
                forall|j: int| 0 <= j < i ==> is_known_id(#[trigger] self.devices@[j]@),
            decreases n - i,
        {
            match by_id(self.devices[i].as_str()) {
                Some(player) => {
                    named.push(player);
                },
                None => {
                    let mut message = "no player named ".to_owned();
                    message.append(self.devices[i].as_str());
                    return Err(message);
                },
            }
            i += 1;
        }
        Ok(named)
    }
}


// ---------------------------------------------------------------------------
// What the window is shown.
// ---------------------------------------------------------------------------

/// One player's verdict on one track, at the size of a status light.
#[derive(Debug, Clone)]
pub struct Lamp {
    pub id: &'static str,
    pub name: &'static str,
    /// The player takes the track.
    pub ok: bool,
    /// Why it does not; empty where it does.
    pub issues: Vec<Issue>,
}

/// `lamp` is `player`'s light for `spec`.
pub open spec fn lights(lamp: Lamp, spec: AudioSpec, player: DeviceProfile) -> bool {
    &&& lamp.id == player.id
    &&& lamp.name == player.display_name
    &&& lamp.issues@ == spec_check(spec, player)
    &&& lamp.ok == plays(spec, player)
}

/// A light for every player, in the order the players come, so that lights
/// line up in columns down a list: lit where the player takes `spec`, and
/// carrying its reasons where it does not.
pub fn lamps_for(spec: &AudioSpec, players: &[DeviceProfile]) -> (lamps: Vec<Lamp>)
    ensures
        lamps@.len() == players@.len(),
        forall|i: int| 0 <= i < players@.len() ==> lights(#[trigger] lamps@[i], *spec, players@[i]),
{
    let mut lamps: Vec<Lamp> = Vec::new();
    let mut i: usize = 0;
    while i < players.len()
        invariant
            i <= players@.len(),
            lamps@.len() == i,
            forall|j: int| 0 <= j < i ==> lights(#[trigger] lamps@[j], *spec, players@[j]),
        decreases players@.len() - i,
    {
        let issues = check(spec, &players[i]);
        let ok = issues.len() == 0;
        lamps.push(Lamp { id: players[i].id, name: players[i].display_name, ok, issues });
        i += 1;
    }
    lamps
}

/// What a list shows as a path's name: its last component, or the whole
/// path where that names nothing.
pub open spec fn spec_name_of(path: Seq<char>) -> Seq<char> {
    match spec_file_name(spec_components(path)) {
        Some(name) => name,
        None => path,
    }
}

pub fn name_of(path: &str) -> (name: String)
    ensures
        name@ == spec_name_of(path@),
{
    match file_name_of(path) {
        Some(name) => name,
        None => path.to_owned(),
    }
}

/// The path made of `cs` as it reads from `root`: what follows `root` where
/// it lies under it, else all of it.
pub open spec fn spec_from_root(cs: Seq<Seq<char>>, root: Seq<char>) -> Seq<char> {
    match spec_strip_prefix(cs, spec_components(root)) {
        Some(rest) => render(rest),
        None => render(cs),
    }
}

fn from_root(cs: &Vec<String>, root: &str) -> (text: String)
    ensures
        text@ == spec_from_root(views(cs@), root@),
{
    let base = components(root);
    if starts_with(cs, &base) {
        let rest = copy_components(cs, base.len());
        render_path(&rest)
    } else {
        render_path(cs)
    }
}

/// `path` as it reads from `root`: what follows `root` where `path` lies
/// under it, else `path` as it was given.
pub open spec fn spec_relative(path: Seq<char>, root: Seq<char>) -> Seq<char> {
    match spec_strip_prefix(spec_components(path), spec_components(root)) {
        Some(rest) => render(rest),
        None => path,
    }
}

pub fn relative(path: &str, root: &str) -> (text: String)
    ensures
        text@ == spec_relative(path@, root@),
{
    let cs = components(path);
    let base = components(root);
    if starts_with(&cs, &base) {
        let rest = copy_components(&cs, base.len());
        render_path(&rest)
    } else {
        path.to_owned()
    }
}

/// The folder holding `path`, as it reads from `root`; empty where `path`
/// has none.
pub open spec fn spec_folder_of(path: Seq<char>, root: Seq<char>) -> Seq<char> {
    match spec_parent(spec_components(path)) {
        Some(parent) => spec_from_root(parent, root),
        None => Seq::empty(),
    }
}

pub fn folder_of(path: &str, root: &str) -> (folder: String)
    ensures
        folder@ == spec_folder_of(path@, root@),
{
    let mut cs = components(path);
    let n = cs.len();
    if n == 0 || crate::text::str_eq(cs[n - 1].as_str(), "/") {
        return String::new();
    }
    let ghost all = views(cs@);
    cs.pop();
    assert(views(cs@) =~= all.drop_last());
    from_root(&cs, root)
}

/// A track on a drive that some player refuses, as the window lists it.
#[derive(Debug, Clone)]
pub struct FailingTrack {
    pub path: String,
    pub name: String,
    /// Where it sits on the drive: two tracks of one name in different
    /// folders read alike otherwise.
    pub folder: String,
    pub spec: Option<AudioSpec>,
    /// A light per player, where the track could be read.
    pub lamps: Vec<Lamp>,
    pub error: Option<String>,
}

/// The same text, or none on both sides.
pub open spec fn same_text(a: Option<String>, b: Option<String>) -> bool {
    match (a, b) {
        (Some(x), Some(y)) => x@ == y@,
        (None, None) => true,
        _ => false,
    }
}

/// `track` is how the window lists `verdict` for a drive at `root`.
pub open spec fn lists<'a>(
    track: FailingTrack,
    verdict: Verdict<'a>,
    root: Seq<char>,
    players: Seq<DeviceProfile>,
) -> bool {
    &&& track.path@ == verdict.path@
    &&& track.name@ == spec_name_of(verdict.path@)
    &&& track.folder@ == spec_folder_of(verdict.path@, root)
    &&& track.spec == verdict.spec
    &&& match verdict.spec {
        Some(spec) => track.lamps@.len() == players.len() && forall|i: int|
            0 <= i < players.len() ==> lights(#[trigger] track.lamps@[i], spec, players[i]),
        None => track.lamps@.len() == 0,
    }
    &&& same_text(track.error, verdict.error)
}

/// Some player refuses the track, or it could not be read.
pub open spec fn refused<'a>(verdict: Verdict<'a>) -> bool {
    !(verdict.error is None && verdict.refused_by@.len() == 0)
}

/// The positions of the verdicts that are refused, in order.
pub open spec fn refused_at<'a>(verdicts: Seq<Verdict<'a>>) -> Seq<int>
    decreases verdicts.len(),
{
    if verdicts.len() == 0 {
        Seq::empty()
    } else {
        let earlier = refused_at(verdicts.drop_last());
        if refused(verdicts.last()) {
            earlier.push(verdicts.len() - 1)
        } else {
            earlier
        }
    }
}

proof fn lemma_refused_at_bounds<'a>(verdicts: Seq<Verdict<'a>>)
    ensures
        forall|k: int|
            0 <= k < refused_at(verdicts).len() ==> 0 <= #[trigger] refused_at(verdicts)[k]
                < verdicts.len(),
    decreases verdicts.len(),
{
    if verdicts.len() > 0 {
        let earlier = refused_at(verdicts.drop_last());
        lemma_refused_at_bounds(verdicts.drop_last());
        assert forall|k: int| 0 <= k < refused_at(verdicts).len() implies 0
            <= #[trigger] refused_at(verdicts)[k] < verdicts.len() by {
            if k < earlier.len() {
                assert(refused_at(verdicts)[k] == earlier[k]);
            }
        }
    }
}

/// Only the tracks some player refuses, in the order the verdicts come: a
/// drive holds thousands, and the ones that play need no attention.
pub fn failing_tracks<'a>(
    verdicts: &Vec<Verdict<'a>>,
    root: &str,
    players: &[DeviceProfile],
) -> (failing: Vec<FailingTrack>)
    ensures
        failing@.len() == refused_at(verdicts@).len(),
        forall|k: int|
            0 <= k < failing@.len() ==> lists(
                #[trigger] failing@[k],
                verdicts@[refused_at(verdicts@)[k]],
                root@,
                players@,
            ),
{
    let mut failing: Vec<FailingTrack> = Vec::new();
    let mut i: usize = 0;
    while i < verdicts.len()
        invariant
            i <= verdicts@.len(),
            failing@.len() == refused_at(verdicts@.take(i as int)).len(),
            forall|k: int|
                0 <= k < failing@.len() ==> lists(
                    #[trigger] failing@[k],
                    verdicts@[refused_at(verdicts@.take(i as int))[k]],
                    root@,
                    players@,
                ),
        decreases verdicts@.len() - i,
    {
        let ghost before = verdicts@.take(i as int);
        let ghost after = verdicts@.take(i + 1);
        proof {
            assert(after.drop_last() =~= before);
            lemma_refused_at_bounds(before);
        }
        let verdict = &verdicts[i];
        if !verdict.plays() {
            let lamps = match &verdict.spec {
                Some(spec) => lamps_for(spec, players),
                None => Vec::new(),
            };
            let error = match &verdict.error {
                Some(e) => Some(e.clone()),
                None => None,
            };
            let track = FailingTrack {
                path: verdict.path.clone(),
                name: name_of(verdict.path.as_str()),
                folder: folder_of(verdict.path.as_str(), root),
                spec: verdict.spec,
                lamps,
                error,
            };
            failing.push(track);
            proof {
                assert(refused_at(after) == refused_at(before).push(i as int));
                assert forall|k: int| 0 <= k < failing@.len() implies lists(
                    #[trigger] failing@[k],
                    verdicts@[refused_at(after)[k]],
                    root@,
                    players@,
                ) by {
                    if k < failing@.len() - 1 {
                        assert(refused_at(after)[k] == refused_at(before)[k]);
                    }
                }
            }
        } else {
            assert(refused_at(after) == refused_at(before));
        }
        i += 1;
    }
    assert(verdicts@.take(verdicts@.len() as int) =~= verdicts@);
    failing
}

/// Said of a folder a conversion could not list: what was inside it was
/// never planned.
pub const UNREADABLE_FOLDER: &'static str = "could not be read, and nothing inside it was checked";

/// What became of one file a conversion was asked for.
#[derive(Debug, Clone)]
pub struct Outcome {
    pub path: String,
    pub name: String,
    /// Where the result went; empty where nothing was written.
    pub output_path: String,
    pub error: Option<String>,
}

/// `outcome` says what became of `job`, which ended as `result`.
pub open spec fn tells(outcome: Outcome, job: Job, result: Result<(), ConvertError>) -> bool {
    &&& outcome.path@ == job.input@
    &&& outcome.name@ == spec_name_of(job.input@)
    &&& outcome.output_path@ == job.output@
    &&& match result {
        Ok(()) => outcome.error is None,
        Err(e) => outcome.error matches Some(text) && text@ == spec_convert_message(e),
    }
}

/// `outcome` says that `path` came to nothing, for the reason `message`.
pub open spec fn tells_failure(outcome: Outcome, path: Seq<char>, message: Seq<char>) -> bool {
    &&& outcome.path@ == path
    &&& outcome.name@ == spec_name_of(path)
    &&& outcome.output_path@ == Seq::<char>::empty()
    &&& outcome.error matches Some(text) && text@ == message
}

/// That `path` came to nothing, for the reason `message`.
pub fn failure(path: &str, message: String) -> (outcome: Outcome)
    ensures
        tells_failure(outcome, path@, message@),
{
    Outcome {
        path: path.to_owned(),
        name: name_of(path),
        output_path: String::new(),
        error: Some(message),
    }
}

/// What a conversion reports: every job that ran, in order, with what became
/// of it, and after them every failure found before anything ran.
pub fn outcomes(
    jobs: &Vec<Job>,
    results: &Vec<Result<(), ConvertError>>,
    failures: Vec<Outcome>,
) -> (all: Vec<Outcome>)
    requires
        results@.len() == jobs@.len(),
    ensures
        all@.len() == jobs@.len() + failures@.len(),
        forall|k: int| 0 <= k < jobs@.len() ==> tells(#[trigger] all@[k], jobs@[k], results@[k]),
        forall|k: int|
            jobs@.len() <= k < all@.len() ==> #[trigger] all@[k] == failures@[k - jobs@.len()],
{
    let mut all: Vec<Outcome> = Vec::new();
    let mut i: usize = 0;
    while i < jobs.len()
        invariant
            results@.len() == jobs@.len(),
            i <= jobs@.len(),
            all@.len() == i,
            forall|k: int| 0 <= k < i ==> tells(#[trigger] all@[k], jobs@[k], results@[k]),
        decreases jobs@.len() - i,
    {
        let job = &jobs[i];
        let error = match &results[i] {
            Ok(()) => None,
            Err(e) => Some(e.message()),
        };
        all.push(
            Outcome {
                path: job.input.clone(),
                name: name_of(job.input.as_str()),
                output_path: job.output.clone(),
                error,
            },
        );
        i += 1;
    }
    let ghost ran = all@;
    let mut rest = failures;
    all.append(&mut rest);
    proof {
        assert(all@ =~= ran + failures@);
        assert forall|k: int| 0 <= k < jobs@.len() implies tells(
            #[trigger] all@[k],
            jobs@[k],
            results@[k],
        ) by {
            assert(all@[k] == ran[k]);
        }
    }
    all
}

} // verus!

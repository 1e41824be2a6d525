//! Working out each job before any is run, and refusing the ones that would
//! destroy something.
//!
//! Reading a file and running ffmpeg happen elsewhere; this module decides
//! what each file becomes, where it goes, what is asked of ffmpeg, and what
//! a failure is reported as.

use vstd::prelude::*;

use crate::compat::AudioSpec;
use crate::files::{Found, PathError, lands, nearest_root, output_path, text_view};
use crate::path::{
    anchored_components, components, render, render_path, settle_components, spec_components,
    without_dots,
};
use crate::plan::{MetadataPolicy, Plan, Target, encode_args, plan, spec_is_lossy, spec_plan};
use crate::probe::{ProbeError, spec_probe_message};
use crate::text::{push_arg, str_eq, views};

verus! {

/// Why ffmpeg, or the copy that stands in for it, did not produce a file.
#[derive(Debug, Clone, PartialEq, Eq)]
pub enum ConvertError {
    NotRunnable { reason: String },
    Failed { stderr: String },
    CopyFailed { reason: String },
    NoOutputFolder { directory: String, reason: String },
}

/// What a [`ConvertError`] says.
pub open spec fn spec_convert_message(error: ConvertError) -> Seq<char> {
    match error {
        ConvertError::NotRunnable { reason } => "could not run ffmpeg: "@ + reason@,
        ConvertError::Failed { stderr } => "ffmpeg could not write the output: "@ + stderr@,
        ConvertError::CopyFailed { reason } => "could not copy the file: "@ + reason@,
        ConvertError::NoOutputFolder { directory, reason } => "could not create "@ + directory@
            + ": "@ + reason@,
    }
}

impl ConvertError {
    /// The error as one line of text.
    pub fn message(&self) -> (text: String)
        ensures
            text@ == spec_convert_message(*self),
    {
        let mut text = String::new();
        match self {
            ConvertError::NotRunnable { reason } => {
                text.append("could not run ffmpeg: ");
                text.append(reason.as_str());
            },
            ConvertError::Failed { stderr } => {
                text.append("ffmpeg could not write the output: ");
                text.append(stderr.as_str());
            },
            ConvertError::CopyFailed { reason } => {
                text.append("could not copy the file: ");
                text.append(reason.as_str());
            },
            ConvertError::NoOutputFolder { directory, reason } => {
                text.append("could not create ");
                text.append(directory.as_str());
                text.append(": ");
                text.append(reason.as_str());
            },
        }
        text
    }
}

/// Why a file never became a job.
#[derive(Debug, Clone, PartialEq, Eq)]
pub enum PrepareError {
    /// ffprobe could not say what the file is.
    Unreadable { path: String, source: ProbeError },
    /// There is nowhere for its result to go.
    Destination(PathError),
    /// Another file of this run would be written to the same place.
    SameDestination { path: String, other: String, output: String },
    /// Its result would land on a file this run is reading.
    OverSource { path: String, other: String },
}

pub open spec fn spec_path_error_message(error: PathError) -> Seq<char> {
    match error {
        PathError::Nameless(p) => p@ + " has no file name"@,
        PathError::WouldOverwriteSource(p) => "refusing to overwrite the source: "@ + p@,
    }
}

/// What a [`PrepareError`] says.
pub open spec fn spec_prepare_message(error: PrepareError) -> Seq<char> {
    match error {
        PrepareError::Unreadable { path, source } => path@ + ": "@ + spec_probe_message(source),
        PrepareError::Destination(e) => spec_path_error_message(e),
        PrepareError::SameDestination { path, other, output } => path@ + " and "@ + other@
            + " would both be written to "@ + output@,
        PrepareError::OverSource { path, other } => path@ + " would be written over "@ + other@
            + ", which this run is reading"@,
    }
}

impl PathError {
    /// The error as one line of text.
    pub fn message(&self) -> (text: String)
        ensures
            text@ == spec_path_error_message(*self),
    {
        let mut text = String::new();
        match self {
            PathError::Nameless(p) => {
                text.append(p.as_str());
                text.append(" has no file name");
            },
            PathError::WouldOverwriteSource(p) => {
                text.append("refusing to overwrite the source: ");
                text.append(p.as_str());
            },
        }
        text
    }
}

impl PrepareError {
    /// The error as one line of text.
    pub fn message(&self) -> (text: String)
        ensures
            text@ == spec_prepare_message(*self),
    {
        match self {
            PrepareError::Unreadable { path, source } => {
                let mut text = String::new();
                text.append(path.as_str());
                text.append(": ");
                let said = source.message();
                text.append(said.as_str());
                text
            },
            PrepareError::Destination(e) => e.message(),
            PrepareError::SameDestination { path, other, output } => {
                let mut text = String::new();
                text.append(path.as_str());
                text.append(" and ");
                text.append(other.as_str());
                text.append(" would both be written to ");
                text.append(output.as_str());
                text
            },
            PrepareError::OverSource { path, other } => {
                let mut text = String::new();
                text.append(path.as_str());
                text.append(" would be written over ");
                text.append(other.as_str());
                text.append(", which this run is reading");
                text
            },
        }
    }
}

/// One file's conversion, worked out and ready to run.
#[derive(Debug, Clone)]
pub struct Job {
    pub plan: Plan,
    pub input: String,
    pub output: String,
}

/// What each file is converted into: one target for every file, or each
/// file kept in the format it arrived in, only its tags rewritten.
#[derive(Debug, Clone, Copy, PartialEq, Eq)]
pub enum TargetFor {
    Fixed(Target),
    Keeping(MetadataPolicy),
}

pub open spec fn spec_target_for(choice: TargetFor, source: AudioSpec) -> Target {
    match choice {
        TargetFor::Fixed(target) => target,
        TargetFor::Keeping(metadata) => Target {
            codec: source.codec,
            sample_rate: crate::plan::SampleRatePolicy::Preserve,
            bit_depth: crate::plan::BitDepthPolicy::Preserve,
            bitrate_kbps: source.bitrate_kbps,
            metadata,
        },
    }
}

impl TargetFor {
    /// The target for a file that arrived as `source`.
    pub fn resolve(&self, source: &AudioSpec) -> (target: Target)
        ensures
            target == spec_target_for(*self, *source),
    {
        match self {
            TargetFor::Fixed(target) => *target,
            TargetFor::Keeping(metadata) => Target::keeping(source, *metadata),
        }
    }
}

/// `out` is the job owed for `input`, given what reading it gave.
pub open spec fn prepared_as(
    out: Result<Job, PrepareError>,
    input: Seq<char>,
    into: Option<Seq<char>>,
    base: Option<Seq<char>>,
    probed: Result<AudioSpec, ProbeError>,
    choice: TargetFor,
    cwd: Seq<char>,
) -> bool {
    match probed {
        Err(source) => out matches Err(PrepareError::Unreadable { path, source: s }) && path@ == input
            && s == source,
        Ok(spec) => {
            let p = spec_plan(spec, spec_target_for(choice, spec));
            match out {
                Ok(job) => job.plan == p && job.input@ == input && lands(
                    Ok(job.output),
                    input,
                    into,
                    base,
                    p.output.codec,
                    cwd,
                ),
                Err(PrepareError::Destination(e)) => lands(
                    Err(e),
                    input,
                    into,
                    base,
                    p.output.codec,
                    cwd,
                ),
                Err(_) => false,
            }
        },
    }
}

/// Work out what `input` becomes and where it goes, writing nothing, given
/// what reading it gave, for a run standing in `cwd`.
pub fn prepare(
    input: &str,
    into: Option<&str>,
    base: Option<&str>,
    probed: Result<AudioSpec, ProbeError>,
    target_for: &TargetFor,
    cwd: &str,
) -> (out: Result<Job, PrepareError>)
    ensures
        prepared_as(out, input@, text_view(into), text_view(base), probed, *target_for, cwd@),
{
    let source = match probed {
        Ok(source) => source,
        Err(source) => {
            return Err(PrepareError::Unreadable { path: input.to_owned(), source });
        },
    };
    let target = target_for.resolve(&source);
    let p = plan(&source, &target);
    match output_path(input, into, base, p.output.codec, cwd) {
        Ok(output) => Ok(Job { plan: p, input: input.to_owned(), output }),
        Err(e) => Err(PrepareError::Destination(e)),
    }
}


/// The components of `path` with its dot segments resolved.
pub fn without_dot_segments(path: &str) -> (settled: Vec<String>)
    ensures
        views(settled@) == without_dots(spec_components(path@)),
{
    let cs = components(path);
    settle_components(&cs)
}

/// Text in lower case, by Unicode's mapping: a function of the text alone.
pub uninterp spec fn lowercase(text: Seq<char>) -> Seq<char>;

/// Trusted: `str::to_lowercase`, which std documents as the lowercase
/// equivalent of the text under Unicode's Lowercase mapping. Claimed: the
/// result depends on the text alone, and on text that is all ASCII the
/// mapping only turns `A`..`Z` into `a`..`z`, as ASCII lowercasing does.
/// What it does to other characters is left to the name `lowercase`.
#[verifier::external_body]
fn to_lowercase(text: &str) -> (lower: String)
    ensures
        lower@ == lowercase(text@),
        (forall|i: int| 0 <= i < text@.len() ==> (text@[i] as int) < 128) ==> lower@
            == text@.map_values(|c: char| crate::files::ascii_lower(c)),
{
    text.to_lowercase()
}

/// The components `path` names when read from `cwd`.
pub open spec fn anchored(path: Seq<char>, cwd: Seq<char>) -> Seq<Seq<char>> {
    anchored_components(spec_components(path), cwd)
}

/// What makes two paths the same file: the path anchored at `cwd` with its
/// dot segments resolved, compared without case where the filesystem
/// ignores it.
pub open spec fn spec_file_key(path: Seq<char>, cwd: Seq<char>, fold_case: bool) -> Seq<char> {
    let settled = render(without_dots(anchored(path, cwd)));
    if fold_case {
        if forall|i: int| 0 <= i < settled.len() ==> (settled[i] as int) < 128 {
            settled.map_values(|c: char| crate::files::ascii_lower(c))
        } else {
            lowercase(settled)
        }
    } else {
        settled
    }
}

/// What makes two paths the same file, read from `cwd`.
pub fn same_file_key(path: &str, cwd: &str, fold_case: bool) -> (key: String)
    ensures
        key@ == spec_file_key(path@, cwd@, fold_case),
{
    let cs = components(path);
    let absolute = cs.len() > 0 && str_eq(cs[0].as_str(), "/");
    let whole = if absolute {
        cs
    } else {
        let mut joined = components(cwd);
        let mut rest = cs;
        let ghost a = views(joined@);
        let ghost b = views(rest@);
        joined.append(&mut rest);
        assert(views(joined@) =~= a + b);
        joined
    };
    let settled_components = settle_components(&whole);
    let settled = render_path(&settled_components);
    if fold_case {
        to_lowercase(settled.as_str())
    } else {
        settled
    }
}


/// Why a job is refused before anything is written: the index of the other
/// job it collides with.
#[derive(Debug, Clone, Copy, PartialEq, Eq, Structural)]
pub enum Clash {
    /// Another job would write the same file.
    SameOutput(usize),
    /// Its output is a file another job reads.
    OverInput(usize),
}

/// The first index whose key is `key`.
pub open spec fn first_in(keys: Seq<Option<Seq<char>>>, key: Seq<char>) -> Option<int>
    decreases keys.len(),
{
    if keys.len() == 0 {
        None
    } else {
        match first_in(keys.drop_last(), key) {
            Some(j) => Some(j),
            None => if keys.last() == Some(key) {
                Some(keys.len() - 1)
            } else {
                None
            },
        }
    }
}

proof fn lemma_first_in(keys: Seq<Option<Seq<char>>>, key: Seq<char>)
    ensures
        first_in(keys, key) matches Some(j) ==> 0 <= j < keys.len() && keys[j] == Some(key),
    decreases keys.len(),
{
    if keys.len() > 0 {
        lemma_first_in(keys.drop_last(), key);
    }
}

/// The clash, if any, of job `i`, given each job's output and input keys
/// (none for a slot that never prepared). Two jobs writing one file are
/// each refused, naming the other: a later one names the first, the first
/// names the next. A job whose output is another's input is refused,
/// naming the first job that reads it.
pub open spec fn spec_clash(outs: Seq<Option<Seq<char>>>, ins: Seq<Option<Seq<char>>>, i: int) -> Option<Clash> {
    match outs[i] {
        None => None,
        Some(out) => match first_in(outs.take(i), out) {
            Some(f) => Some(Clash::SameOutput(f as usize)),
            None => match first_in(outs.skip(i + 1), out) {
                Some(d) => Some(Clash::SameOutput((i + 1 + d) as usize)),
                None => match first_in(ins, out) {
                    Some(r) => if r != i {
                        Some(Clash::OverInput(r as usize))
                    } else {
                        None
                    },
                    None => None,
                },
            },
        },
    }
}

/// Each (input, output) pair as its texts.
pub open spec fn pair_views(pairs: Seq<Option<(String, String)>>) -> Seq<Option<(Seq<char>, Seq<char>)>> {
    pairs.map_values(
        |p: Option<(String, String)>|
            match p {
                Some((input, output)) => Some((input@, output@)),
                None => None,
            },
    )
}

pub open spec fn output_keys(pairs: Seq<Option<(Seq<char>, Seq<char>)>>, cwd: Seq<char>, fold_case: bool) -> Seq<Option<Seq<char>>> {
    pairs.map_values(
        |p: Option<(Seq<char>, Seq<char>)>|
            match p {
                Some((_, output)) => Some(spec_file_key(output, cwd, fold_case)),
                None => None,
            },
    )
}

pub open spec fn input_keys(pairs: Seq<Option<(Seq<char>, Seq<char>)>>, cwd: Seq<char>, fold_case: bool) -> Seq<Option<Seq<char>>> {
    pairs.map_values(
        |p: Option<(Seq<char>, Seq<char>)>|
            match p {
                Some((input, _)) => Some(spec_file_key(input, cwd, fold_case)),
                None => None,
            },
    )
}

pub open spec fn key_views(keys: Seq<Option<String>>) -> Seq<Option<Seq<char>>> {
    keys.map_values(
        |k: Option<String>|
            match k {
                Some(t) => Some(t@),
                None => None,
            },
    )
}

proof fn lemma_first_in_extend(s: Seq<Option<Seq<char>>>, t: Seq<Option<Seq<char>>>, key: Seq<char>)
    requires
        first_in(s, key) is Some,
    ensures
        first_in(s + t, key) == first_in(s, key),
    decreases t.len(),
{
    if t.len() == 0 {
        assert(s + t =~= s);
    } else {
        lemma_first_in_extend(s, t.drop_last(), key);
        assert((s + t).drop_last() =~= s + t.drop_last());
    }
}

/// The first index in `from..to` whose key is `key`.
fn first_between(keys: &Vec<Option<String>>, key: &str, from: usize, to: usize) -> (found: Option<usize>)
    requires
        from <= to <= keys@.len(),
    ensures
        match first_in(key_views(keys@).subrange(from as int, to as int), key@) {
            Some(d) => found == Some((from + d) as usize),
            None => found is None,
        },
{
    let ghost kv = key_views(keys@);
    let mut j: usize = from;
    assert(kv.subrange(from as int, from as int) =~= Seq::<Option<Seq<char>>>::empty());
    while j < to
        invariant
            from <= j <= to <= keys@.len(),
            kv == key_views(keys@),
            first_in(kv.subrange(from as int, j as int), key@) is None,
        decreases to - j,
    {
        let ghost next = kv.subrange(from as int, j + 1);
        assert(next.drop_last() =~= kv.subrange(from as int, j as int));
        assert(next.last() == kv[j as int]);
        let hit = match &keys[j] {
            Some(k) => str_eq(k.as_str(), key),
            None => false,
        };
        if hit {
            assert(kv[j as int] == Some(key@));
            proof {
                assert(first_in(next, key@) == Some(j - from));
                lemma_first_in_extend(next, kv.subrange(j + 1, to as int), key@);
                assert(next + kv.subrange(j + 1, to as int) =~= kv.subrange(from as int, to as int));
            }
            return Some(j);
        }
        j += 1;
    }
    None
}

/// Which of `pairs` (input, output) would destroy something, each read from
/// `cwd`; `fold_case` where the filesystem ignores case. A slot that never
/// prepared is none and shifts nothing.
pub fn clashes(pairs: &Vec<Option<(String, String)>>, cwd: &str, fold_case: bool) -> (verdicts: Vec<Option<Clash>>)
    ensures
        verdicts@.len() == pairs@.len(),
        forall|i: int|
            0 <= i < pairs@.len() ==> #[trigger] verdicts@[i] == spec_clash(
                output_keys(pair_views(pairs@), cwd@, fold_case),
                input_keys(pair_views(pairs@), cwd@, fold_case),
                i,
            ),
{
    let n = pairs.len();
    let mut outs: Vec<Option<String>> = Vec::new();
    let mut ins: Vec<Option<String>> = Vec::new();
    let ghost ok = output_keys(pair_views(pairs@), cwd@, fold_case);
    let ghost ik = input_keys(pair_views(pairs@), cwd@, fold_case);
    assert(ok.len() == n);
    assert(ik.len() == n);
    assert(key_views(outs@) =~= ok.take(0));
    assert(key_views(ins@) =~= ik.take(0));
    let mut i: usize = 0;
    while i < n
        invariant
            n == pairs@.len(),
            i <= n,
            ok == output_keys(pair_views(pairs@), cwd@, fold_case),
            ik == input_keys(pair_views(pairs@), cwd@, fold_case),
            key_views(outs@) == ok.take(i as int),
            key_views(ins@) == ik.take(i as int),
            outs@.len() == i,
            ins@.len() == i,
            ok.len() == n,
            ik.len() == n,
        decreases n - i,
    {
        let ghost o0 = key_views(outs@);
        let ghost i0 = key_views(ins@);
        let ghost old_outs = outs@;
        let ghost old_ins = ins@;
        match &pairs[i] {
            Some((input, output)) => {
                assert(ok[i as int] == Some(spec_file_key(output@, cwd@, fold_case)));
                assert(ik[i as int] == Some(spec_file_key(input@, cwd@, fold_case)));
                outs.push(Some(same_file_key(output.as_str(), cwd, fold_case)));
                ins.push(Some(same_file_key(input.as_str(), cwd, fold_case)));
            },
            None => {
                assert(ok[i as int] is None);
                assert(ik[i as int] is None);
                outs.push(None);
                ins.push(None);
            },
        }
        assert(key_views(outs@).len() == i + 1);
        assert(key_views(outs@)[i as int] == ok[i as int]);
        assert forall|j: int| 0 <= j < i implies key_views(outs@)[j] == o0[j] by {
            assert(outs@[j] == old_outs[j]);
        }
        assert forall|j: int| 0 <= j < i implies key_views(ins@)[j] == i0[j] by {
            assert(ins@[j] == old_ins[j]);
        }
        assert(key_views(ins@)[i as int] == ik[i as int]);
        assert(key_views(outs@) =~= ok.take(i + 1));
        assert(key_views(ins@) =~= ik.take(i + 1));
        i += 1;
    }
    assert(ok.take(n as int) =~= ok);
    assert(ik.take(n as int) =~= ik);
    let mut verdicts: Vec<Option<Clash>> = Vec::new();
    let mut i: usize = 0;
    while i < n
        invariant
            n == pairs@.len(),
            i <= n,
            key_views(outs@) == ok,
            key_views(ins@) == ik,
            ok.len() == n,
            ik.len() == n,
            verdicts@.len() == i,
            forall|j: int| 0 <= j < i ==> #[trigger] verdicts@[j] == spec_clash(ok, ik, j),
        decreases n - i,
    {
        assert(key_views(outs@)[i as int] == ok[i as int]);
        let verdict = match &outs[i] {
            None => None,
            Some(out) => {
                assert(ok[i as int] == Some(out@));
                assert(ok.subrange(0, i as int) =~= ok.take(i as int));
                assert(ok.subrange(i + 1, n as int) =~= ok.skip(i + 1));
                assert(ik.subrange(0, n as int) =~= ik);
                proof {
                    lemma_first_in(ok.take(i as int), out@);
                    lemma_first_in(ok.skip(i + 1), out@);
                    lemma_first_in(ik, out@);
                }
                let earlier = first_between(&outs, out.as_str(), 0, i);
                let later = first_between(&outs, out.as_str(), i + 1, n);
                let reader = first_between(&ins, out.as_str(), 0, n);
                match earlier {
                    Some(f) => Some(Clash::SameOutput(f)),
                    None => match later {
                        Some(d) => Some(Clash::SameOutput(d)),
                        None => match reader {
                            Some(r) => if r != i {
                                Some(Clash::OverInput(r))
                            } else {
                                None
                            },
                            None => None,
                        },
                    },
                }
            },
        };
        assert(verdict == spec_clash(ok, ik, i as int));
        verdicts.push(verdict);
        i += 1;
    }
    verdicts
}


proof fn lemma_clash_bounds(outs: Seq<Option<Seq<char>>>, ins: Seq<Option<Seq<char>>>, i: int)
    requires
        0 <= i < outs.len(),
        ins.len() == outs.len(),
        outs.len() <= usize::MAX,
    ensures
        spec_clash(outs, ins, i) matches Some(Clash::SameOutput(j)) ==> j < outs.len() && outs[j as int] is Some,
        spec_clash(outs, ins, i) matches Some(Clash::OverInput(j)) ==> j < outs.len() && ins[j as int] is Some,
{
    if let Some(out) = outs[i] {
        lemma_first_in(outs.take(i), out);
        lemma_first_in(outs.skip(i + 1), out);
        lemma_first_in(ins, out);
        if let Some(d) = first_in(outs.skip(i + 1), out) {
            assert(outs.skip(i + 1)[d] == outs[i + 1 + d]);
        }
    }
}

/// Each prepared job as its (input, output) texts; none for a slot that
/// never prepared.
pub open spec fn job_pairs(prepared: Seq<Result<Job, PrepareError>>) -> Seq<Option<(Seq<char>, Seq<char>)>> {
    prepared.map_values(
        |r: Result<Job, PrepareError>|
            match r {
                Ok(job) => Some((job.input@, job.output@)),
                Err(_) => None,
            },
    )
}

/// Slot `i` after clashes are refused: unchanged, or the error naming the
/// job it collides with.
pub open spec fn refused_as(
    before: Seq<Result<Job, PrepareError>>,
    after: Result<Job, PrepareError>,
    i: int,
    cwd: Seq<char>,
    fold_case: bool,
) -> bool {
    let pairs = job_pairs(before);
    match spec_clash(output_keys(pairs, cwd, fold_case), input_keys(pairs, cwd, fold_case), i) {
        None => after == before[i],
        Some(Clash::SameOutput(j)) => match (before[i], before[j as int]) {
            (Ok(mine), Ok(theirs)) => after matches Err(
                PrepareError::SameDestination { path, other, output },
            ) && path@ == mine.input@ && other@ == theirs.input@ && output@ == mine.output@,
            _ => after == before[i],
        },
        Some(Clash::OverInput(j)) => match (before[i], before[j as int]) {
            (Ok(mine), Ok(theirs)) => after matches Err(PrepareError::OverSource { path, other })
                && path@ == mine.input@ && other@ == theirs.input@,
            _ => after == before[i],
        },
    }
}

/// Turn each job that would destroy something into the error that says so.
pub fn refuse_clashes(prepared: &mut Vec<Result<Job, PrepareError>>, cwd: &str, fold_case: bool)
    ensures
        final(prepared)@.len() == old(prepared)@.len(),
        forall|i: int|
            0 <= i < old(prepared)@.len() ==> refused_as(
                old(prepared)@,
                #[trigger] final(prepared)@[i],
                i,
                cwd@,
                fold_case,
            ),
{
    let ghost before = prepared@;
    let n = prepared.len();
    let mut pairs: Vec<Option<(String, String)>> = Vec::new();
    let mut i: usize = 0;
    while i < n
        invariant
            n == prepared@.len(),
            prepared@ == before,
            i <= n,
            pair_views(pairs@) == job_pairs(before).take(i as int),
            pairs@.len() == i,
        decreases n - i,
    {
        let ghost p0 = pair_views(pairs@);
        let ghost old_pairs = pairs@;
        match &prepared[i] {
            Ok(job) => {
                assert(job_pairs(before)[i as int] == Some((job.input@, job.output@)));
                pairs.push(Some((job.input.clone(), job.output.clone())));
            },
            Err(_) => {
                assert(job_pairs(before)[i as int] is None);
                pairs.push(None);
            },
        }
        assert forall|k: int| 0 <= k < i implies pair_views(pairs@)[k] == p0[k] by {
            assert(pairs@[k] == old_pairs[k]);
        }
        assert(pair_views(pairs@) =~= job_pairs(before).take(i + 1));
        i += 1;
    }
    assert(job_pairs(before).take(n as int) =~= job_pairs(before));
    let verdicts = clashes(&pairs, cwd, fold_case);
    let ghost ok = output_keys(job_pairs(before), cwd@, fold_case);
    let ghost ik = input_keys(job_pairs(before), cwd@, fold_case);
    let mut i: usize = 0;
    while i < n
        invariant
            n == before.len(),
            prepared@.len() == n,
            pairs@.len() == n,
            verdicts@.len() == n,
            i <= n,
            pair_views(pairs@) == job_pairs(before),
            ok == output_keys(job_pairs(before), cwd@, fold_case),
            ik == input_keys(job_pairs(before), cwd@, fold_case),
            forall|k: int| 0 <= k < n ==> #[trigger] verdicts@[k] == spec_clash(ok, ik, k),
            forall|k: int| 0 <= k < i ==> refused_as(before, #[trigger] prepared@[k], k, cwd@, fold_case),
            forall|k: int| i <= k < n ==> #[trigger] prepared@[k] == before[k],
        decreases n - i,
    {
        proof {
            lemma_clash_bounds(ok, ik, i as int);
        }
        let verdict = verdicts[i];
        match verdict {
            None => {},
            Some(clash) => {
                let j = match clash {
                    Clash::SameOutput(j) => j,
                    Clash::OverInput(j) => j,
                };
                let replacement = match (&pairs[i], &pairs[j]) {
                    (Some((path, output)), Some((other, _))) => {
                        assert(pair_views(pairs@)[i as int] == Some((path@, output@)));
                        assert(pair_views(pairs@)[j as int] matches Some((o, _)) && o == other@);
                        match clash {
                            Clash::SameOutput(_) => Some(
                                Err(
                                    PrepareError::SameDestination {
                                        path: path.clone(),
                                        other: other.clone(),
                                        output: output.clone(),
                                    },
                                ),
                            ),
                            Clash::OverInput(_) => Some(
                                Err(PrepareError::OverSource { path: path.clone(), other: other.clone() }),
                            ),
                        }
                    },
                    _ => None,
                };
                match replacement {
                    Some(r) => {
                        prepared.set(i, r);
                    },
                    None => {},
                }
            },
        }
        i += 1;
    }
}

/// Each of `found`'s files worked out as [`prepare`] owes, from its own
/// reading and the folder it was swept out of.
pub open spec fn each_prepared(
    initial: Seq<Result<Job, PrepareError>>,
    found: Found,
    into: Option<Seq<char>>,
    probed: Seq<Result<AudioSpec, ProbeError>>,
    target_for: TargetFor,
    cwd: Seq<char>,
) -> bool {
    &&& initial.len() == found.files@.len()
    &&& forall|i: int|
        0 <= i < initial.len() ==> prepared_as(
            #[trigger] initial[i],
            found.files@[i]@,
            into,
            match nearest_root(crate::text::views(found.roots@), found.files@[i]@) {
                Some(r) => Some(found.roots@[r]@),
                None => None,
            },
            probed[i],
            target_for,
            cwd,
        )
}

/// `after` is `before` with every clash refused.
pub open spec fn all_refused(
    before: Seq<Result<Job, PrepareError>>,
    after: Seq<Result<Job, PrepareError>>,
    cwd: Seq<char>,
    fold_case: bool,
) -> bool {
    &&& after.len() == before.len()
    &&& forall|i: int| 0 <= i < before.len() ==> refused_as(before, #[trigger] after[i], i, cwd, fold_case)
}

/// Every file `found` holds worked out, given what reading each gave, and
/// then every job that would destroy something refused.
pub fn prepare_all(
    found: &Found,
    into: Option<&str>,
    probed: Vec<Result<AudioSpec, ProbeError>>,
    target_for: &TargetFor,
    cwd: &str,
    fold_case: bool,
) -> (prepared: Vec<Result<Job, PrepareError>>)
    requires
        probed@.len() == found.files@.len(),
    ensures
        prepared@.len() == found.files@.len(),
        exists|initial: Seq<Result<Job, PrepareError>>|
            #[trigger] each_prepared(initial, *found, text_view(into), probed@, *target_for, cwd@)
                && all_refused(initial, prepared@, cwd@, fold_case),
{
    let ghost outcomes = probed@;
    let mut rest = probed;
    let n = found.files.len();
    let mut prepared: Vec<Result<Job, PrepareError>> = Vec::new();
    let mut i: usize = 0;
    while i < n
        invariant
            n == found.files@.len(),
            n == outcomes.len(),
            i <= n,
            rest@ == outcomes.skip(i as int),
            prepared@.len() == i,
            forall|k: int|
                0 <= k < i ==> prepared_as(
                    #[trigger] prepared@[k],
                    found.files@[k]@,
                    text_view(into),
                    match nearest_root(crate::text::views(found.roots@), found.files@[k]@) {
                        Some(r) => Some(found.roots@[r]@),
                        None => None,
                    },
                    outcomes[k],
                    *target_for,
                    cwd@,
                ),
        decreases n - i,
    {
        let outcome = rest.remove(0);
        assert(outcome == outcomes[i as int]);
        assert(rest@ =~= outcomes.skip(i + 1));
        let file = found.files[i].as_str();
        let base = found.base_of(file);
        let job = prepare(file, into, base, outcome, target_for, cwd);
        prepared.push(job);
        i += 1;
    }
    let ghost initial = prepared@;
    refuse_clashes(&mut prepared, cwd, fold_case);
    assert(each_prepared(initial, *found, text_view(into), outcomes, *target_for, cwd@));
    assert(all_refused(initial, prepared@, cwd@, fold_case));
    prepared
}

/// Everything ffmpeg is handed to carry out `plan` on one file.
pub open spec fn spec_ffmpeg_args(plan: Plan, input: Seq<char>, output: Seq<char>) -> Seq<Seq<char>> {
    seq!["-nostdin"@, "-v"@, "error"@, "-y"@, "-i"@, input] + crate::plan::spec_encode_args(plan) + seq![output]
}

/// Everything ffmpeg is handed to carry out `plan`, reading `input` and
/// writing `output`: quietly, never waiting on a prompt, overwriting what a
/// previous attempt left.
pub fn ffmpeg_args(plan: &Plan, input: &str, output: &str) -> (args: Vec<String>)
    ensures
        views(args@) == spec_ffmpeg_args(*plan, input@, output@),
{
    let mut args: Vec<String> = Vec::new();
    push_arg(&mut args, "-nostdin");
    push_arg(&mut args, "-v");
    push_arg(&mut args, "error");
    push_arg(&mut args, "-y");
    push_arg(&mut args, "-i");
    push_arg(&mut args, input);
    let mut rest = encode_args(plan);
    let ghost head = views(args@);
    let ghost tail = views(rest@);
    args.append(&mut rest);
    assert(views(args@) =~= head + tail);
    push_arg(&mut args, output);
    assert(views(args@) =~= spec_ffmpeg_args(*plan, input@, output@));
    args
}

/// The error for an ffmpeg run that exited unsuccessfully, given what it
/// wrote to stderr and its exit status as text: what it said, or when it
/// said nothing, how it exited.
pub fn ffmpeg_failure(stderr: &str, status: &str) -> (error: ConvertError)
    ensures
        error matches ConvertError::Failed { stderr: said } && said@ == crate::probe::spec_why_it_failed(
            stderr@,
            status@,
        ),
{
    ConvertError::Failed { stderr: crate::probe::why_it_failed(stderr, status) }
}


proof fn lemma_first_in_found(keys: Seq<Option<Seq<char>>>, key: Seq<char>, k: int)
    requires
        0 <= k < keys.len(),
        keys[k] == Some(key),
    ensures
        first_in(keys, key) is Some,
    decreases keys.len(),
{
    if k < keys.len() - 1 {
        lemma_first_in_found(keys.drop_last(), key, k);
    }
}

proof fn lemma_first_in_absent(keys: Seq<Option<Seq<char>>>, key: Seq<char>)
    requires
        forall|k: int| 0 <= k < keys.len() ==> keys[k] != Some(key),
    ensures
        first_in(keys, key) is None,
    decreases keys.len(),
{
    if keys.len() > 0 {
        lemma_first_in_absent(keys.drop_last(), key);
    }
}

/// Two jobs that would write one file are both refused, each naming a job
/// it collides with.
pub proof fn two_writers_of_one_file_are_both_refused(
    outs: Seq<Option<Seq<char>>>,
    ins: Seq<Option<Seq<char>>>,
    i: int,
    j: int,
)
    requires
        0 <= i < outs.len(),
        0 <= j < outs.len(),
        i != j,
        outs[i] is Some,
        outs[i] == outs[j],
    ensures
        spec_clash(outs, ins, i) matches Some(Clash::SameOutput(_)),
        spec_clash(outs, ins, j) matches Some(Clash::SameOutput(_)),
{
    let out = outs[i]->0;
    let (lo, hi) = if i < j {
        (i, j)
    } else {
        (j, i)
    };
    assert(outs.take(hi)[lo] == Some(out));
    lemma_first_in_found(outs.take(hi), out, lo);
    if first_in(outs.take(lo), out) is None {
        assert(outs.skip(lo + 1)[hi - lo - 1] == Some(out));
        lemma_first_in_found(outs.skip(lo + 1), out, hi - lo - 1);
    }
}

/// A job whose output no other job writes or reads is not refused.
pub proof fn an_output_nobody_else_claims_is_fine(
    outs: Seq<Option<Seq<char>>>,
    ins: Seq<Option<Seq<char>>>,
    i: int,
)
    requires
        0 <= i < outs.len(),
        ins.len() == outs.len(),
        outs[i] is Some,
        forall|j: int| 0 <= j < outs.len() && j != i ==> outs[j] != outs[i] && ins[j] != outs[i],
    ensures
        spec_clash(outs, ins, i) is None,
{
    let out = outs[i]->0;
    assert forall|k: int| 0 <= k < outs.take(i).len() implies #[trigger] outs.take(i)[k] != Some(out) by {
        assert(outs.take(i)[k] == outs[k]);
    }
    lemma_first_in_absent(outs.take(i), out);
    assert forall|k: int| 0 <= k < outs.skip(i + 1).len() implies #[trigger] outs.skip(i + 1)[k] != Some(out) by {
        assert(outs.skip(i + 1)[k] == outs[i + 1 + k]);
    }
    lemma_first_in_absent(outs.skip(i + 1), out);
    lemma_first_in(ins, out);
}


/// How a job's clash comes out, by what the others hold: it is refused for
/// the same output when another job writes the same file, naming one that
/// does; failing that, for writing over a source when another job reads
/// its output, naming one that does; and otherwise it stands. A slot that
/// never prepared is left alone. (A job reading its own output is ruled
/// out: its destination is refused before it gets here.)
pub proof fn how_a_clash_comes_out(outs: Seq<Option<Seq<char>>>, ins: Seq<Option<Seq<char>>>, i: int)
    requires
        0 <= i < outs.len(),
        ins.len() == outs.len(),
        outs.len() <= usize::MAX,
        ins[i] != outs[i] || outs[i] is None,
    ensures
        outs[i] is None ==> spec_clash(outs, ins, i) is None,
        outs[i] is Some && (exists|j: int| 0 <= j < outs.len() && j != i && #[trigger] outs[j] == outs[i])
            ==> (spec_clash(outs, ins, i) matches Some(Clash::SameOutput(j)) && j != i && j
            < outs.len() && outs[j as int] == outs[i]),
        outs[i] is Some && !(exists|j: int| 0 <= j < outs.len() && j != i && #[trigger] outs[j] == outs[i])
            && (exists|j: int| 0 <= j < outs.len() && j != i && #[trigger] ins[j] == outs[i])
            ==> (spec_clash(outs, ins, i) matches Some(Clash::OverInput(j)) && j != i && j
            < outs.len() && ins[j as int] == outs[i]),
        outs[i] is Some && !(exists|j: int| 0 <= j < outs.len() && j != i && #[trigger] outs[j] == outs[i])
            && !(exists|j: int| 0 <= j < outs.len() && j != i && #[trigger] ins[j] == outs[i])
            ==> spec_clash(outs, ins, i) is None,
{
    if let Some(out) = outs[i] {
        let before = outs.take(i);
        let after = outs.skip(i + 1);
        lemma_first_in(before, out);
        lemma_first_in(after, out);
        lemma_first_in(ins, out);
        if let Some(f) = first_in(before, out) {
            assert(before[f] == outs[f]);
        } else if let Some(d) = first_in(after, out) {
            assert(after[d] == outs[i + 1 + d]);
        }
        if exists|j: int| 0 <= j < outs.len() && j != i && #[trigger] outs[j] == outs[i] {
            let j = choose|j: int| 0 <= j < outs.len() && j != i && #[trigger] outs[j] == outs[i];
            if j < i {
                assert(before[j] == Some(out));
                lemma_first_in_found(before, out, j);
            } else {
                assert(after[j - i - 1] == Some(out));
                lemma_first_in_found(after, out, j - i - 1);
            }
        } else {
            assert forall|k: int| 0 <= k < before.len() implies #[trigger] before[k] != Some(out) by {
                assert(before[k] == outs[k]);
            }
            lemma_first_in_absent(before, out);
            assert forall|k: int| 0 <= k < after.len() implies #[trigger] after[k] != Some(out) by {
                assert(after[k] == outs[i + 1 + k]);
            }
            lemma_first_in_absent(after, out);
            if exists|j: int| 0 <= j < outs.len() && j != i && #[trigger] ins[j] == outs[i] {
                let j = choose|j: int| 0 <= j < outs.len() && j != i && #[trigger] ins[j] == outs[i];
                lemma_first_in_found(ins, out, j);
            } else {
                if let Some(r) = first_in(ins, out) {
                    assert(ins[r] == Some(out));
                    assert(r == i);
                }
            }
        }
    }
}


/// A stream that carries only the measures its kind has: a bitrate for a
/// lossy codec, a word length for a lossless one.
pub open spec fn measured_as_its_kind(source: AudioSpec) -> bool {
    &&& spec_is_lossy(source.codec) ==> source.bit_depth is None
    &&& !spec_is_lossy(source.codec) ==> source.bitrate_kbps is None
}

/// Keeping each file in its own format leaves its audio alone: the codec and
/// the rate stay, a lossy file keeps the bitrate it arrived with and a
/// lossless one its word length, and only the tags follow the policy. A
/// stream that carries only its kind's measures comes out as it went in, and
/// is never encoded.
pub proof fn keeping_the_format_leaves_the_audio_alone(source: AudioSpec, metadata: MetadataPolicy)
    ensures
        ({
            let p = spec_plan(source, spec_target_for(TargetFor::Keeping(metadata), source));
            &&& p.output.codec == source.codec
            &&& p.output.sample_rate_hz == source.sample_rate_hz
            &&& spec_is_lossy(source.codec) ==> p.output.bitrate_kbps == source.bitrate_kbps
            &&& !spec_is_lossy(source.codec) ==> p.output.bit_depth == source.bit_depth
            &&& p.metadata == metadata
            &&& measured_as_its_kind(source) ==> p.output == source && !(p.action is Encode)
        }),
{
}

} // verus!

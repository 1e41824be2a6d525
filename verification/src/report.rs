//! What the command line says: every message, line and count it prints,
//! worked out from values. Printing them is the caller's part.

use vstd::prelude::*;

use crate::compat::{AudioSpec, Issue, check, spec_check};
use crate::device::{
    Codec, DeviceProfile, FileSystem, FormatSupport, Support, by_id, devices, is_device_table,
    is_documented, is_known_id, rows_for,
};
use crate::files::AUDIO_EXTENSIONS;
use crate::path::{
    components, render, render_path, spec_components, spec_file_name, spec_parent,
    spec_starts_with, starts_with,
};
use crate::plan::Target;
use crate::text::{
    decimal, find, lemma_decimal_digits, lemma_find_bounds, push_char, spec_decimal, spec_find,
    str_eq, trim, trimmed,
    views,
};

verus! {

/// How a codec is named to a person.
pub open spec fn spec_codec_name(codec: Codec) -> Seq<char> {
    match codec {
        Codec::Mp3 => "MP3"@,
        Codec::AacLc => "AAC"@,
        Codec::Alac => "ALAC"@,
        Codec::Flac => "FLAC"@,
        Codec::PcmWav => "WAV"@,
        Codec::PcmAiff => "AIFF"@,
    }
}

pub fn codec_name(codec: Codec) -> (name: &'static str)
    ensures
        name@ == spec_codec_name(codec),
{
    match codec {
        Codec::Mp3 => "MP3",
        Codec::AacLc => "AAC",
        Codec::Alac => "ALAC",
        Codec::Flac => "FLAC",
        Codec::PcmWav => "WAV",
        Codec::PcmAiff => "AIFF",
    }
}

/// What a manual's verdict is called in the device list.
pub open spec fn spec_describe(support: Support) -> Seq<char> {
    match support {
        Support::Yes => "yes"@,
        Support::No => "no"@,
        Support::Unknown => "undocumented"@,
        Support::Conflicting => "sources disagree"@,
    }
}

pub fn describe(support: Support) -> (text: &'static str)
    ensures
        text@ == spec_describe(support),
{
    match support {
        Support::Yes => "yes",
        Support::No => "no",
        Support::Unknown => "undocumented",
        Support::Conflicting => "sources disagree",
    }
}

pub open spec fn spec_filesystem_name(fs: FileSystem) -> Seq<char> {
    match fs {
        FileSystem::Fat16 => "FAT16"@,
        FileSystem::Fat32 => "FAT32"@,
        FileSystem::ExFat => "exFAT"@,
        FileSystem::HfsPlus => "HFS+"@,
        FileSystem::Ntfs => "NTFS"@,
    }
}

pub fn filesystem_name(fs: FileSystem) -> (name: &'static str)
    ensures
        name@ == spec_filesystem_name(fs),
{
    match fs {
        FileSystem::Fat16 => "FAT16",
        FileSystem::Fat32 => "FAT32",
        FileSystem::ExFat => "exFAT",
        FileSystem::HfsPlus => "HFS+",
        FileSystem::Ntfs => "NTFS",
    }
}

/// `noun`, with an `s` unless there is exactly one.
pub open spec fn spec_plural(count: nat, noun: Seq<char>) -> Seq<char> {
    if count == 1 {
        noun
    } else {
        noun + "s"@
    }
}

pub fn plural(count: usize, noun: &str) -> (text: String)
    ensures
        text@ == spec_plural(count as nat, noun@),
{
    let mut text = noun.to_owned();
    if count != 1 {
        text.append("s");
    }
    text
}

/// Where a double's 53-bit significand starts: `n` doubled until it reaches
/// `2^52` thousandths, so that `n / 1000` at that scale is an integer of 53
/// bits plus a remainder.
pub const SIGNIFICAND_FLOOR: u64 = 4503599627370496000;

pub open spec fn scaled(n: nat, steps: nat) -> nat
    decreases steps,
{
    if steps == 0 || n == 0 || n >= SIGNIFICAND_FLOOR {
        n
    } else {
        scaled(2 * n, (steps - 1) as nat)
    }
}

/// Whether `hz / 1000`, a rate ending in exactly half a tenth, shows one
/// tenth higher when the nearest double to it is written to one decimal
/// place: the double lies above the half, or is exactly the half and the
/// lower tenth is odd (a tie goes to the even digit).
pub open spec fn half_rounds_up(hz: u32) -> bool {
    let n = scaled(hz as nat, 64);
    let r = n % 1000;
    let q = n / 1000;
    if r == 0 {
        (hz / 100) % 2 == 1
    } else {
        r > 500 || (r == 500 && q % 2 == 1)
    }
}

/// A sampling rate in kHz with no unit: whole kilohertz as a whole number,
/// anything else as the nearest double to `hz / 1000` written to one decimal
/// place, as `{:.1}` writes it.
pub open spec fn spec_khz(hz: u32) -> Seq<char> {
    if hz % 1000 == 0 {
        spec_decimal((hz / 1000) as nat)
    } else {
        let below: int = (hz / 100) as int;
        let rest = hz % 100;
        let tenths: int = if rest < 50 {
            below
        } else if rest > 50 {
            below + 1
        } else if half_rounds_up(hz) {
            below + 1
        } else {
            below
        };
        spec_decimal((tenths / 10) as nat) + "."@ + spec_decimal((tenths % 10) as nat)
    }
}

fn half_rounds_up_exec(hz: u32) -> (up: bool)
    ensures
        up == half_rounds_up(hz),
{
    let mut n: u64 = hz as u64;
    let mut steps: u64 = 64;
    while steps > 0 && n != 0 && n < SIGNIFICAND_FLOOR
        invariant
            n <= 2 * SIGNIFICAND_FLOOR,
            scaled(n as nat, steps as nat) == scaled(hz as nat, 64),
        decreases steps,
    {
        n = 2 * n;
        steps -= 1;
    }
    let r = n % 1000;
    let q = n / 1000;
    if r == 0 {
        (hz / 100) % 2 == 1
    } else {
        r > 500 || (r == 500 && q % 2 == 1)
    }
}

pub fn khz(hz: u32) -> (text: String)
    ensures
        text@ == spec_khz(hz),
{
    if hz % 1000 == 0 {
        decimal((hz / 1000) as u64)
    } else {
        let below: u64 = (hz / 100) as u64;
        let rest = hz % 100;
        let tenths: u64 = if rest < 50 {
            below
        } else if rest > 50 {
            below + 1
        } else if half_rounds_up_exec(hz) {
            below + 1
        } else {
            below
        };
        let mut text = decimal(tenths / 10);
        text.append(".");
        let digit = decimal(tenths % 10);
        text.append(digit.as_str());
        text
    }
}

/// One line about a stream: codec, rate, and depth and bitrate where it has
/// them.
pub open spec fn spec_describe_spec(spec: AudioSpec) -> Seq<char> {
    let head = spec_codec_name(spec.codec) + " "@ + spec_khz(spec.sample_rate_hz) + " kHz"@;
    let with_depth = match spec.bit_depth {
        Some(bits) => head + " "@ + spec_decimal(bits as nat) + "-bit"@,
        None => head,
    };
    match spec.bitrate_kbps {
        Some(kbps) => with_depth + " "@ + spec_decimal(kbps as nat) + " kbps"@,
        None => with_depth,
    }
}

pub fn describe_spec(spec: &AudioSpec) -> (text: String)
    ensures
        text@ == spec_describe_spec(*spec),
{
    let mut text = codec_name(spec.codec).to_owned();
    text.append(" ");
    let rate = khz(spec.sample_rate_hz);
    text.append(rate.as_str());
    text.append(" kHz");
    match spec.bit_depth {
        Some(bits) => {
            text.append(" ");
            let b = decimal(bits as u64);
            text.append(b.as_str());
            text.append("-bit");
        },
        None => {},
    }
    match spec.bitrate_kbps {
        Some(kbps) => {
            text.append(" ");
            let k = decimal(kbps as u64);
            text.append(k.as_str());
            text.append(" kbps");
        },
        None => {},
    }
    text
}

/// An issue named as the value to change, not the rule it broke.
pub open spec fn spec_describe_issue(issue: Issue) -> Seq<char> {
    match issue {
        Issue::CodecUnsupported { codec } => spec_codec_name(codec) + " is not supported"@,
        Issue::SampleRateUnsupported { codec, requested_hz } => spec_khz(requested_hz)
            + " kHz is not supported for "@ + spec_codec_name(codec),
        Issue::BitDepthUnsupported { codec, requested_bits } => spec_decimal(requested_bits as nat)
            + "-bit is not supported for "@ + spec_codec_name(codec),
        Issue::BitrateOutOfRange { codec, requested_kbps, allowed_kbps } => spec_decimal(
            requested_kbps as nat,
        ) + " kbps is outside "@ + spec_decimal(allowed_kbps.0 as nat) + "-"@ + spec_decimal(
            allowed_kbps.1 as nat,
        ) + " kbps for "@ + spec_codec_name(codec),
    }
}

pub fn describe_issue(issue: Issue) -> (text: String)
    ensures
        text@ == spec_describe_issue(issue),
{
    match issue {
        Issue::CodecUnsupported { codec } => {
            let mut text = codec_name(codec).to_owned();
            text.append(" is not supported");
            text
        },
        Issue::SampleRateUnsupported { codec, requested_hz } => {
            let mut text = khz(requested_hz);
            text.append(" kHz is not supported for ");
            text.append(codec_name(codec));
            text
        },
        Issue::BitDepthUnsupported { codec, requested_bits } => {
            let mut text = decimal(requested_bits as u64);
            text.append("-bit is not supported for ");
            text.append(codec_name(codec));
            text
        },
        Issue::BitrateOutOfRange { codec, requested_kbps, allowed_kbps } => {
            let (min, max) = allowed_kbps;
            let mut text = decimal(requested_kbps as u64);
            text.append(" kbps is outside ");
            let lo = decimal(min as u64);
            text.append(lo.as_str());
            text.append("-");
            let hi = decimal(max as u64);
            text.append(hi.as_str());
            text.append(" kbps for ");
            text.append(codec_name(codec));
            text
        },
    }
}

/// The counter line that overwrites itself: back to column zero, the line
/// wiped, then the count.
pub open spec fn spec_progress_line(done: nat, total: nat) -> Seq<char> {
    "\r\u{1b}[Kchecking "@ + spec_decimal(done) + "/"@ + spec_decimal(total)
}

pub fn progress_line(done: usize, total: usize) -> (line: String)
    ensures
        line@ == spec_progress_line(done as nat, total as nat),
{
    let mut line = "\r\u{1b}[Kchecking ".to_owned();
    let d = decimal(done as u64);
    line.append(d.as_str());
    line.append("/");
    let t = decimal(total as u64);
    line.append(t.as_str());
    line
}

/// `parts` joined by `sep`.
pub open spec fn joined_by(parts: Seq<Seq<char>>, sep: Seq<char>) -> Seq<char>
    decreases parts.len(),
{
    if parts.len() == 0 {
        Seq::empty()
    } else if parts.len() == 1 {
        parts[0]
    } else {
        joined_by(parts.drop_last(), sep) + sep + parts.last()
    }
}

/// `parts` joined by `sep`.
pub fn join(parts: &[&str], sep: &str) -> (text: String)
    ensures
        text@ == joined_by(parts@.map_values(|p: &str| p@), sep@),
{
    let ghost all = parts@.map_values(|p: &str| p@);
    let n = parts.len();
    let mut text = String::new();
    if n == 0 {
        return text;
    }
    text.append(parts[0]);
    let mut i: usize = 1;
    assert(all.take(1) =~= seq![all[0]]);
    while i < n
        invariant
            n == parts@.len(),
            1 <= i <= n,
            all == parts@.map_values(|p: &str| p@),
            text@ == joined_by(all.take(i as int), sep@),
        decreases n - i,
    {
        text.append(sep);
        text.append(parts[i]);
        proof {
            let t = all.take(i + 1);
            assert(t.drop_last() =~= all.take(i as int));
            assert(t.last() == parts@[i as int]@);
        }
        i += 1;
    }
    assert(all.take(n as int) =~= all);
    text
}

/// `parts` joined by `sep`.
pub fn join_owned(parts: &Vec<String>, sep: &str) -> (text: String)
    ensures
        text@ == joined_by(views(parts@), sep@),
{
    let ghost all = views(parts@);
    let n = parts.len();
    let mut text = String::new();
    if n == 0 {
        return text;
    }
    text.append(parts[0].as_str());
    let mut i: usize = 1;
    assert(all.take(1) =~= seq![all[0]]);
    while i < n
        invariant
            n == parts@.len(),
            1 <= i <= n,
            all == views(parts@),
            text@ == joined_by(all.take(i as int), sep@),
        decreases n - i,
    {
        text.append(sep);
        text.append(parts[i].as_str());
        proof {
            let t = all.take(i + 1);
            assert(t.drop_last() =~= all.take(i as int));
            assert(t.last() == parts@[i as int]@);
        }
        i += 1;
    }
    assert(all.take(n as int) =~= all);
    text
}

/// The zsh glob for the audio extensions, case-insensitive so that a `.WAV`
/// ripped years ago still shows up.
pub open spec fn spec_audio_glob() -> Seq<char> {
    "(#i)*.("@ + joined_by(AUDIO_EXTENSIONS@.map_values(|p: &str| p@), "|"@) + ")"@
}

pub fn audio_glob() -> (glob: String)
    ensures
        glob@ == spec_audio_glob(),
{
    let mut glob = "(#i)*.(".to_owned();
    let known = AUDIO_EXTENSIONS;
    let inner = join(&known, "|");
    glob.append(inner.as_str());
    glob.append(")");
    glob
}


/// The first line of `message`, trimmed.
pub open spec fn first_line_of(message: Seq<char>) -> Seq<char> {
    match spec_find(message, "\n"@) {
        Some(k) => trimmed(message.take(k)),
        None => trimmed(message),
    }
}

/// One line about a track that failed: the first line of the message, with
/// ffprobe naming the decoder it loaded and the address it landed at cut
/// out. Matched on the address, so a bracket that means something else
/// survives.
pub open spec fn spec_first_line(message: Seq<char>) -> Seq<char> {
    let line = first_line_of(message);
    match spec_find(line, ": ["@) {
        None => line,
        Some(start) => match spec_find(line.skip(start), "] "@) {
            None => line,
            Some(off) => {
                let end = start + off;
                if spec_find(line.subrange(start, end), " @ 0x"@) is Some {
                    line.take(start) + ": "@ + line.skip(end + 2)
                } else {
                    line
                }
            },
        },
    }
}

fn first_line_only(message: &str) -> (line: String)
    ensures
        line@ == first_line_of(message@),
{
    proof {
        lemma_find_bounds(message@, "\n"@);
    }
    match find(message, "\n") {
        Some(k) => trim(message.substring_char(0, k)),
        None => trim(message),
    }
}

pub fn first_line(message: &str) -> (line: String)
    ensures
        line@ == spec_first_line(message@),
{
    let line = first_line_only(message);
    let m = line.unicode_len();
    proof {
        lemma_find_bounds(line@, ": ["@);
    }
    let start = match find(line.as_str(), ": [") {
        Some(start) => start,
        None => return line,
    };
    let tail = line.as_str().substring_char(start, m);
    assert(tail@ =~= line@.skip(start as int));
    proof {
        lemma_find_bounds(tail@, "] "@);
        reveal_strlit("] ");
    }
    let off = match find(tail, "] ") {
        Some(off) => off,
        None => return line,
    };
    let end = start + off;
    let tagged = line.as_str().substring_char(start, end);
    if find(tagged, " @ 0x").is_some() {
        let mut out = line.as_str().substring_char(0, start).to_owned();
        out.append(": ");
        let rest = line.as_str().substring_char(end + 2, m);
        out.append(rest);
        assert(line@.take(start as int) =~= line@.subrange(0, start as int));
        assert(line@.skip(end + 2) =~= line@.subrange(end + 2, m as int));
        out
    } else {
        line
    }
}

/// `path` said from `root`: what follows it, when `path` lies under it.
pub open spec fn spec_relative_to(root: Seq<char>, path: Seq<char>) -> Seq<char> {
    let rc = spec_components(root);
    let pc = spec_components(path);
    if spec_starts_with(pc, rc) {
        render(pc.skip(rc.len() as int))
    } else {
        path
    }
}

fn rest_after(v: &Vec<String>, from: usize) -> (rest: Vec<String>)
    requires
        from <= v@.len(),
    ensures
        views(rest@) == views(v@).skip(from as int),
{
    let mut rest: Vec<String> = Vec::new();
    let mut i: usize = from;
    while i < v.len()
        invariant
            from <= i <= v@.len(),
            views(rest@) == views(v@).subrange(from as int, i as int),
        decreases v@.len() - i,
    {
        crate::text::push_arg(&mut rest, v[i].as_str());
        assert(views(v@).subrange(from as int, i + 1) =~= views(v@).subrange(from as int, i as int).push(v@[i as int]@));
        i += 1;
    }
    assert(views(v@).subrange(from as int, v@.len() as int) =~= views(v@).skip(from as int));
    rest
}

/// Paths shown as they sit on the drive: the mount point is on the line
/// above, and repeating it on every row buries the part that differs.
pub fn relative_to(root: &str, path: &str) -> (text: String)
    ensures
        text@ == spec_relative_to(root@, path@),
{
    let rc = components(root);
    let pc = components(path);
    if starts_with(&pc, &rc) {
        let rest = rest_after(&pc, rc.len());
        render_path(&rest)
    } else {
        path.to_owned()
    }
}

/// Where a result went, said from the folder the results are rooted at;
/// without one, the folder it landed in and its name.
pub open spec fn spec_landed_at(output: Seq<char>, root: Option<Seq<char>>) -> Seq<char> {
    let oc = spec_components(output);
    let under = match root {
        Some(r) => spec_starts_with(oc, spec_components(r)),
        None => false,
    };
    if under {
        render(oc.skip(spec_components(root->0).len() as int))
    } else {
        let name = match spec_file_name(oc) {
            Some(n) => n,
            None => output,
        };
        match spec_parent(oc) {
            Some(parent) => match spec_file_name(parent) {
                Some(folder) => folder + "/"@ + name,
                None => name,
            },
            None => name,
        }
    }
}

pub fn landed_at(output: &str, root: Option<&str>) -> (text: String)
    ensures
        text@ == spec_landed_at(output@, crate::files::text_view(root)),
{
    let oc = components(output);
    match root {
        Some(r) => {
            let rc = components(r);
            if starts_with(&oc, &rc) {
                let rest = rest_after(&oc, rc.len());
                return render_path(&rest);
            }
        },
        None => {},
    }
    let n = oc.len();
    let named = n > 0 && crate::path::is_normal_exec(oc[n - 1].as_str());
    let name = if named {
        oc[n - 1].clone()
    } else {
        output.to_owned()
    };
    if n > 0 && !str_eq(oc[n - 1].as_str(), "/") {
        let m = n - 1;
        if m > 0 && crate::path::is_normal_exec(oc[m - 1].as_str()) {
            assert(views(oc@).drop_last().last() == oc@[m - 1]@);
            let mut text = oc[m - 1].clone();
            text.append("/");
            text.append(name.as_str());
            return text;
        }
        assert(m > 0 ==> views(oc@).drop_last().last() == oc@[m - 1]@);
    }
    name
}

/// `names` joined by `, `, each as its text.
pub open spec fn listed_names(names: Seq<&'static str>) -> Seq<char> {
    joined_by(names.map_values(|p: &'static str| p@), ", "@)
}

/// What to convert into: a profile by name, a format alone, or, naming
/// neither, the default profile. A name not known is refused, naming the
/// ones that are.
pub fn resolve_target(profile: Option<&str>, to: Option<&str>) -> (target: Result<Target, String>)
    ensures
        match (profile, to) {
            (Some(name), _) => match target {
                Ok(t) => crate::plan::profile_named(name@, t),
                Err(message) => !(name@ == "cdj-safe"@ || name@ == "lossless"@ || name@ == "archive"@)
                    && message@ == "unknown profile: "@ + name@ + ". Try one of: "@ + listed_names(
                    Target::NAMES@,
                ),
            },
            (None, Some(format)) => match target {
                Ok(t) => crate::plan::format_target(format@, t),
                Err(message) => crate::plan::format_codec(format@) is None && message@
                    == "unknown format: "@ + format@ + ". Try one of: "@ + listed_names(
                    Target::FORMATS@,
                ),
            },
            (None, None) => target matches Ok(t) && crate::plan::is_cdj_safe(t),
        },
{
    match (profile, to) {
        (Some(name), _) => match Target::by_name(name) {
            Some(t) => Ok(t),
            None => {
                let mut message = "unknown profile: ".to_owned();
                message.append(name);
                message.append(". Try one of: ");
                let names = Target::NAMES;
                let known = join(&names, ", ");
                message.append(known.as_str());
                Err(message)
            },
        },
        (None, Some(format)) => match Target::from_format(format) {
            Some(t) => Ok(t),
            None => {
                let mut message = "unknown format: ".to_owned();
                message.append(format);
                message.append(". Try one of: ");
                let formats = Target::FORMATS;
                let known = join(&formats, ", ");
                message.append(known.as_str());
                Err(message)
            },
        },
        (None, None) => Ok(Target::cdj_safe()),
    }
}

/// Whether any of `players` refuses `spec`. Any, not every: a track that
/// plays on nine of ten is still the one that stops the set.
pub fn rejected_anywhere(spec: &AudioSpec, players: &[DeviceProfile]) -> (rejected: bool)
    ensures
        rejected == exists|i: int| 0 <= i < players@.len() && spec_check(*spec, #[trigger] players@[i]).len() > 0,
{
    let n = players.len();
    let mut i: usize = 0;
    while i < n
        invariant
            n == players@.len(),
            i <= n,
            forall|j: int| 0 <= j < i ==> spec_check(*spec, #[trigger] players@[j]).len() == 0,
        decreases n - i,
    {
        let issues = check(spec, &players[i]);
        if issues.len() > 0 {
            return true;
        }
        i += 1;
    }
    false
}

/// The players named by `ids`, in the order named; naming none means all of
/// them. An id not in the table is refused, saying where the list is.
pub fn resolve_players(ids: &Vec<String>) -> (players: Result<Vec<DeviceProfile>, String>)
    ensures
        ids@.len() == 0 ==> (players matches Ok(all) && is_device_table(all@)),
        ids@.len() > 0 ==> match players {
            Ok(named) => named@.len() == ids@.len() && forall|i: int|
                0 <= i < ids@.len() ==> (#[trigger] named@[i]).id@ == ids@[i]@ && is_documented(named@[i]),
            Err(message) => exists|i: int|
                0 <= i < ids@.len() && !is_known_id(#[trigger] ids@[i]@) && (forall|j: int|
                    0 <= j < i ==> is_known_id(ids@[j]@)) && message@ == "unknown player: "@
                    + ids@[i]@ + ". Run `transcrate devices` for the list."@,
        },
{
    if ids.len() == 0 {
        return Ok(devices());
    }
    let n = ids.len();
    let mut named: Vec<DeviceProfile> = Vec::new();
    let mut i: usize = 0;
    while i < n
        invariant
            n == ids@.len(),
            i <= n,
            named@.len() == i,
            forall|j: int|
                0 <= j < i ==> (#[trigger] named@[j]).id@ == ids@[j]@ && is_documented(named@[j]),
            forall|j: int| 0 <= j < i ==> is_known_id(#[trigger] ids@[j]@),
        decreases n - i,
    {
        match by_id(ids[i].as_str()) {
            Some(player) => {
                named.push(player);
            },
            None => {
                let mut message = "unknown player: ".to_owned();
                message.append(ids[i].as_str());
                message.append(". Run `transcrate devices` for the list.");
                return Err(message);
            },
        }
        i += 1;
    }
    Ok(named)
}

/// The highest documented sampling rate of any row.
pub open spec fn highest_rate_of(rows: Seq<FormatSupport>) -> Option<u32>
    decreases rows.len(),
{
    if rows.len() == 0 {
        None
    } else {
        let earlier = highest_rate_of(rows.drop_last());
        let here = max_of(rows.last().sample_rates_hz@);
        match (earlier, here) {
            (Some(a), Some(b)) => Some(if a < b { b } else { a }),
            (Some(a), None) => Some(a),
            (None, b) => b,
        }
    }
}

/// The largest value in `values`.
pub open spec fn max_of(values: Seq<u32>) -> Option<u32>
    decreases values.len(),
{
    if values.len() == 0 {
        None
    } else {
        match max_of(values.drop_last()) {
            Some(a) => Some(if a < values.last() { values.last() } else { a }),
            None => Some(values.last()),
        }
    }
}

fn highest_of(values: &[u32]) -> (top: Option<u32>)
    ensures
        top == max_of(values@),
{
    let n = values.len();
    let mut top: Option<u32> = None;
    let mut i: usize = 0;
    while i < n
        invariant
            n == values@.len(),
            i <= n,
            top == max_of(values@.take(i as int)),
        decreases n - i,
    {
        proof {
            let t = values@.take(i + 1);
            assert(t.drop_last() =~= values@.take(i as int));
        }
        let v = values[i];
        top = match top {
            Some(a) => Some(if a < v { v } else { a }),
            None => Some(v),
        };
        i += 1;
    }
    assert(values@.take(n as int) =~= values@);
    top
}

/// The highest rate `device` documents for `codec`, none if it cannot play
/// it at all.
pub fn highest_rate(device: &DeviceProfile, codec: Codec) -> (top: Option<u32>)
    ensures
        top == highest_rate_of(rows_for(device.formats@, codec)),
{
    let rows = device.formats_for(codec);
    let n = rows.len();
    let mut top: Option<u32> = None;
    let mut i: usize = 0;
    while i < n
        invariant
            n == rows@.len(),
            i <= n,
            top == highest_rate_of(rows@.take(i as int)),
        decreases n - i,
    {
        proof {
            let t = rows@.take(i + 1);
            assert(t.drop_last() =~= rows@.take(i as int));
        }
        let here = highest_of(rows[i].sample_rates_hz);
        top = match (top, here) {
            (Some(a), Some(b)) => Some(if a < b { b } else { a }),
            (Some(a), None) => Some(a),
            (None, b) => b,
        };
        i += 1;
    }
    assert(rows@.take(n as int) =~= rows@);
    top
}

/// The highest documented rate for a codec as `48k`, or `-` where the
/// player cannot play it at all.
pub open spec fn spec_max_rate(device: DeviceProfile, codec: Codec) -> Seq<char> {
    match highest_rate_of(rows_for(device.formats@, codec)) {
        Some(hz) => spec_khz(hz) + "k"@,
        None => "-"@,
    }
}

pub fn max_rate(device: &DeviceProfile, codec: Codec) -> (text: String)
    ensures
        text@ == spec_max_rate(*device, codec),
{
    match highest_rate(device, codec) {
        Some(hz) => {
            let mut text = khz(hz);
            text.append("k");
            text
        },
        None => "-".to_owned(),
    }
}


/// `n` spaces.
pub open spec fn spaces(n: nat) -> Seq<char> {
    Seq::new(n, |i: int| ' ')
}

/// `text` padded with spaces on the right to `width` characters, as `{:<w}`
/// pads it.
pub open spec fn padded(text: Seq<char>, width: nat) -> Seq<char> {
    if text.len() >= width {
        text
    } else {
        text + spaces((width - text.len()) as nat)
    }
}

/// `text` padded with spaces on the left to `width` characters, as `{:>w}`
/// pads it.
pub open spec fn padded_left(text: Seq<char>, width: nat) -> Seq<char> {
    if text.len() >= width {
        text
    } else {
        spaces((width - text.len()) as nat) + text
    }
}

fn spaces_exec(n: usize) -> (s: String)
    ensures
        s@ == spaces(n as nat),
{
    let mut s = String::new();
    let mut i: usize = 0;
    while i < n
        invariant
            i <= n,
            s@ == spaces(i as nat),
        decreases n - i,
    {
        push_char(&mut s, ' ');
        assert(s@ =~= spaces((i + 1) as nat));
        i += 1;
    }
    s
}

pub fn pad(text: &str, width: usize) -> (out: String)
    ensures
        out@ == padded(text@, width as nat),
{
    let n = text.unicode_len();
    let mut out = text.to_owned();
    if n < width {
        let fill = spaces_exec(width - n);
        out.append(fill.as_str());
    }
    out
}

pub fn pad_left(text: &str, width: usize) -> (out: String)
    ensures
        out@ == padded_left(text@, width as nat),
{
    let n = text.unicode_len();
    if n < width {
        let mut out = spaces_exec(width - n);
        out.append(text);
        out
    } else {
        text.to_owned()
    }
}

/// How many offending paths are named before the rest are summarised: a
/// stick that is wrong is usually wrong in one place repeated many times.
pub const NAMED_AT_MOST: usize = 10;

/// At most [`NAMED_AT_MOST`] lines, then how many were left out: stopping in
/// silence would read as "that is all of them".
pub open spec fn spec_capped(lines: Seq<Seq<char>>) -> Seq<Seq<char>> {
    if lines.len() <= NAMED_AT_MOST {
        lines
    } else {
        lines.take(NAMED_AT_MOST as int).push(
            "    and "@ + spec_decimal((lines.len() - NAMED_AT_MOST) as nat) + " more"@,
        )
    }
}

pub fn capped(lines: Vec<String>) -> (out: Vec<String>)
    ensures
        views(out@) == spec_capped(views(lines@)),
{
    let n = lines.len();
    if n <= NAMED_AT_MOST {
        return lines;
    }
    let mut out = lines;
    out.truncate(NAMED_AT_MOST);
    assert(views(out@) =~= views(lines@).take(NAMED_AT_MOST as int));
    let mut more = "    and ".to_owned();
    let rest = decimal((n - NAMED_AT_MOST) as u64);
    more.append(rest.as_str());
    more.append(" more");
    crate::text::push_owned(&mut out, more);
    out
}

/// The line naming a folder the sweep could not list.
pub open spec fn spec_unreadable_line(folder: Seq<char>) -> Seq<char> {
    folder + ": could not be read, and nothing inside it was checked"@
}

pub fn unreadable_line(folder: &str) -> (line: String)
    ensures
        line@ == spec_unreadable_line(folder@),
{
    let mut line = folder.to_owned();
    line.append(": could not be read, and nothing inside it was checked");
    line
}

/// Each issue described, joined by `; `.
pub open spec fn spec_reasons(issues: Seq<Issue>) -> Seq<char> {
    joined_by(issues.map_values(|i: Issue| spec_describe_issue(i)), "; "@)
}

pub fn reasons(issues: &Vec<Issue>) -> (text: String)
    ensures
        text@ == spec_reasons(issues@),
{
    let mut described: Vec<String> = Vec::new();
    let n = issues.len();
    let mut i: usize = 0;
    while i < n
        invariant
            n == issues@.len(),
            i <= n,
            views(described@) == issues@.take(i as int).map_values(|x: Issue| spec_describe_issue(x)),
        decreases n - i,
    {
        let d = describe_issue(issues[i]);
        crate::text::push_owned(&mut described, d);
        assert(issues@.take(i + 1).map_values(|x: Issue| spec_describe_issue(x)) =~= issues@.take(
            i as int,
        ).map_values(|x: Issue| spec_describe_issue(x)).push(spec_describe_issue(issues@[i as int])));
        i += 1;
    }
    assert(issues@.take(n as int) =~= issues@);
    join_owned(&described, "; ")
}

/// The players among `players` that take `spec`, by name.
pub open spec fn playable_names(spec: AudioSpec, players: Seq<DeviceProfile>) -> Seq<Seq<char>>
    decreases players.len(),
{
    if players.len() == 0 {
        Seq::empty()
    } else {
        let earlier = playable_names(spec, players.drop_last());
        if spec_check(spec, players.last()).len() == 0 {
            earlier.push(players.last().display_name@)
        } else {
            earlier
        }
    }
}

/// A line for each player among `players` that refuses `spec`: its name and
/// what to change.
pub open spec fn rejection_lines(spec: AudioSpec, players: Seq<DeviceProfile>) -> Seq<Seq<char>>
    decreases players.len(),
{
    if players.len() == 0 {
        Seq::empty()
    } else {
        let earlier = rejection_lines(spec, players.drop_last());
        let issues = spec_check(spec, players.last());
        if issues.len() > 0 {
            earlier.push("  "@ + padded(players.last().display_name@, 14) + " "@ + spec_reasons(issues))
        } else {
            earlier
        }
    }
}

/// One file's verdict as the check prints it: the file, what it holds, a
/// warning when it arrived thin, the players it plays on, and for each
/// player that refuses it, what to change; then a blank line.
pub open spec fn spec_file_report(file: Seq<char>, spec: AudioSpec, players: Seq<DeviceProfile>) -> Seq<Seq<char>> {
    let head = seq![file, "  "@ + spec_describe_spec(spec)];
    let thin = if crate::plan::spec_sounds_thin(spec) {
        head.push("  thin           under 192 kbps, and converting cannot put it back"@)
    } else {
        head
    };
    let names = playable_names(spec, players);
    let plays = if names.len() > 0 {
        thin.push("  plays on       "@ + joined_by(names, ", "@))
    } else {
        thin
    };
    (plays + rejection_lines(spec, players)).push(Seq::empty())
}

pub fn file_report(file: &str, spec: &AudioSpec, players: &[DeviceProfile]) -> (lines: Vec<String>)
    ensures
        views(lines@) == spec_file_report(file@, *spec, players@),
{
    let mut lines: Vec<String> = Vec::new();
    crate::text::push_arg(&mut lines, file);
    let mut second = "  ".to_owned();
    let described = describe_spec(spec);
    second.append(described.as_str());
    crate::text::push_owned(&mut lines, second);
    if crate::plan::sounds_thin(spec) {
        crate::text::push_arg(&mut lines, "  thin           under 192 kbps, and converting cannot put it back");
    }
    let ghost head = views(lines@);
    assert(head =~= ({
        let h = seq![file@, "  "@ + spec_describe_spec(*spec)];
        if crate::plan::spec_sounds_thin(*spec) {
            h.push("  thin           under 192 kbps, and converting cannot put it back"@)
        } else {
            h
        }
    }));
    let mut playable: Vec<String> = Vec::new();
    let mut rejected: Vec<String> = Vec::new();
    let n = players.len();
    let mut i: usize = 0;
    while i < n
        invariant
            n == players@.len(),
            i <= n,
            views(playable@) == playable_names(*spec, players@.take(i as int)),
            views(rejected@) == rejection_lines(*spec, players@.take(i as int)),
            views(lines@) == head,
        decreases n - i,
    {
        proof {
            let t = players@.take(i + 1);
            assert(t.drop_last() =~= players@.take(i as int));
            assert(t.last() == players@[i as int]);
        }
        let player = &players[i];
        let issues = check(spec, player);
        if issues.len() == 0 {
            crate::text::push_arg(&mut playable, player.display_name);
        } else {
            let mut line = "  ".to_owned();
            let name = pad(player.display_name, 14);
            line.append(name.as_str());
            line.append(" ");
            let why = reasons(&issues);
            line.append(why.as_str());
            crate::text::push_owned(&mut rejected, line);
        }
        i += 1;
    }
    assert(players@.take(n as int) =~= players@);
    let ghost names_v = playable_names(*spec, players@);
    if playable.len() > 0 {
        let mut line = "  plays on       ".to_owned();
        let names = join_owned(&playable, ", ");
        line.append(names.as_str());
        crate::text::push_owned(&mut lines, line);
        assert(views(lines@) == head.push("  plays on       "@ + joined_by(names_v, ", "@)));
    } else {
        assert(views(lines@) == head);
    }
    let ghost before = views(lines@);
    let ghost tail = views(rejected@);
    lines.append(&mut rejected);
    assert(views(lines@) =~= before + tail);
    proof {
        reveal_strlit("");
        assert(""@ =~= Seq::<char>::empty());
    }
    crate::text::push_arg(&mut lines, "");
    assert(views(lines@) =~= spec_file_report(file@, *spec, players@));
    lines
}

/// The line listing a drive: its name, its filesystem as this program
/// names it or as the system reported it, and where it is mounted.
pub open spec fn spec_drive_line(drive: crate::usb::Drive) -> Seq<char> {
    let fs = match drive.filesystem {
        Some(known) => spec_filesystem_name(known),
        None => drive.reported_as@,
    };
    padded(drive.name@, 20) + " "@ + padded(fs, 8) + " "@ + drive.mount_point@
}

pub fn drive_line(drive: &crate::usb::Drive) -> (line: String)
    ensures
        line@ == spec_drive_line(*drive),
{
    let mut line = pad(drive.name.as_str(), 20);
    line.append(" ");
    let fs = match drive.filesystem {
        Some(known) => pad(filesystem_name(known), 8),
        None => pad(drive.reported_as.as_str(), 8),
    };
    line.append(fs.as_str());
    line.append(" ");
    line.append(drive.mount_point.as_str());
    line
}


/// Whether a player with this id is among `players`.
pub open spec fn asked_about(players: Seq<DeviceProfile>, id: Seq<char>) -> bool {
    exists|i: int| 0 <= i < players.len() && (#[trigger] players[i]).id@ == id
}

fn is_asked(players: &[DeviceProfile], id: &str) -> (asked: bool)
    ensures
        asked == asked_about(players@, id@),
{
    let n = players.len();
    let mut i: usize = 0;
    while i < n
        invariant
            n == players@.len(),
            i <= n,
            forall|j: int| 0 <= j < i ==> (#[trigger] players@[j]).id@ != id@,
        decreases n - i,
    {
        if str_eq(players[i].id, id) {
            return true;
        }
        i += 1;
    }
    false
}

/// The names of the players in `readable` that were asked about.
pub open spec fn asked_names(readable: Seq<DeviceProfile>, players: Seq<DeviceProfile>) -> Seq<Seq<char>>
    decreases readable.len(),
{
    if readable.len() == 0 {
        Seq::empty()
    } else {
        let earlier = asked_names(readable.drop_last(), players);
        if asked_about(players, readable.last().id@) {
            earlier.push(readable.last().display_name@)
        } else {
            earlier
        }
    }
}

/// What a player that does not read `name` is said to do.
pub open spec fn spec_refusal_verdict(support: Support, name: Seq<char>) -> Seq<char> {
    match support {
        Support::Conflicting => "sources disagree about "@ + name,
        Support::Unknown => name + " is undocumented for this player"@,
        _ => "does not read "@ + name,
    }
}

/// A line for each player in `unreadable` that was asked about.
pub open spec fn refusal_lines(unreadable: Seq<(DeviceProfile, Support)>, players: Seq<DeviceProfile>, name: Seq<char>) -> Seq<Seq<char>>
    decreases unreadable.len(),
{
    if unreadable.len() == 0 {
        Seq::empty()
    } else {
        let earlier = refusal_lines(unreadable.drop_last(), players, name);
        let (player, support) = unreadable.last();
        if asked_about(players, player.id@) {
            earlier.push("  "@ + padded(player.display_name@, 14) + " "@ + spec_refusal_verdict(support, name))
        } else {
            earlier
        }
    }
}

/// Which of the players asked about read a drive's filesystem: its name,
/// the ones that read it, and a line for each one that does not. `table`
/// is every player known, in table order.
pub open spec fn spec_readers_report(fs: FileSystem, table: Seq<DeviceProfile>, players: Seq<DeviceProfile>) -> Seq<Seq<char>> {
    let name = spec_filesystem_name(fs);
    let (readable, unreadable) = crate::usb::spec_readers(table, fs);
    let names = asked_names(readable, players);
    let head = seq!["  "@ + name + "\n"@];
    let with_readers = if names.len() > 0 {
        head.push("  reads it       "@ + joined_by(names, ", "@))
    } else {
        head
    };
    with_readers + refusal_lines(unreadable, players, name)
}

/// The lines about which players read `fs`, and how many of the players
/// asked about do not.
pub fn readers_report(fs: FileSystem, table: &[DeviceProfile], players: &[DeviceProfile]) -> (report: (Vec<String>, usize))
    ensures
        views(report.0@) == spec_readers_report(fs, table@, players@),
        report.1 == refusal_lines(crate::usb::spec_readers(table@, fs).1, players@, spec_filesystem_name(fs)).len(),
{
    let name = filesystem_name(fs);
    let mut lines: Vec<String> = Vec::new();
    let mut first = "  ".to_owned();
    first.append(name);
    first.append("\n");
    crate::text::push_owned(&mut lines, first);
    let split = crate::usb::readers_of(fs, table);
    let ghost readable_v = crate::usb::readable_views(split.readable@);
    let ghost unreadable_v = crate::usb::unreadable_views(split.unreadable@);
    let mut names: Vec<String> = Vec::new();
    let n = split.readable.len();
    let mut i: usize = 0;
    while i < n
        invariant
            n == split.readable@.len(),
            readable_v == crate::usb::readable_views(split.readable@),
            i <= n,
            views(names@) == asked_names(readable_v.take(i as int), players@),
        decreases n - i,
    {
        proof {
            let t = readable_v.take(i + 1);
            assert(t.drop_last() =~= readable_v.take(i as int));
            assert(t.last() == *split.readable@[i as int]);
        }
        let player = split.readable[i];
        if is_asked(players, player.id) {
            crate::text::push_arg(&mut names, player.display_name);
        }
        i += 1;
    }
    assert(readable_v.take(n as int) =~= readable_v);
    let ghost head = views(lines@);
    if names.len() > 0 {
        let mut line = "  reads it       ".to_owned();
        let joined = join_owned(&names, ", ");
        line.append(joined.as_str());
        crate::text::push_owned(&mut lines, line);
    }
    let ghost with_readers = views(lines@);
    let mut refused: usize = 0;
    let m = split.unreadable.len();
    let mut j: usize = 0;
    assert(unreadable_v.take(0) =~= Seq::<(DeviceProfile, Support)>::empty());
    assert(with_readers =~= with_readers + refusal_lines(unreadable_v.take(0), players@, name@));
    while j < m
        invariant
            m == split.unreadable@.len(),
            unreadable_v == crate::usb::unreadable_views(split.unreadable@),
            j <= m,
            views(lines@) == with_readers + refusal_lines(unreadable_v.take(j as int), players@, name@),
            refused == refusal_lines(unreadable_v.take(j as int), players@, name@).len(),
            refused <= j,
        decreases m - j,
    {
        proof {
            let t = unreadable_v.take(j + 1);
            assert(t.drop_last() =~= unreadable_v.take(j as int));
            assert(t.last() == (*split.unreadable@[j as int].0, split.unreadable@[j as int].1));
        }
        let (player, support) = split.unreadable[j];
        if is_asked(players, player.id) {
            refused += 1;
            let verdict = match support {
                Support::Conflicting => {
                    let mut v = "sources disagree about ".to_owned();
                    v.append(name);
                    v
                },
                Support::Unknown => {
                    let mut v = name.to_owned();
                    v.append(" is undocumented for this player");
                    v
                },
                _ => {
                    let mut v = "does not read ".to_owned();
                    v.append(name);
                    v
                },
            };
            let mut line = "  ".to_owned();
            let padded_name = pad(player.display_name, 14);
            line.append(padded_name.as_str());
            line.append(" ");
            line.append(verdict.as_str());
            let ghost before = views(lines@);
            crate::text::push_owned(&mut lines, line);
            assert(views(lines@) =~= with_readers + refusal_lines(unreadable_v.take(j + 1), players@, name@));
        }
        j += 1;
    }
    assert(unreadable_v.take(m as int) =~= unreadable_v);
    proof {
        let (r, u) = crate::usb::spec_readers(table@, fs);
        assert(r == readable_v && u == unreadable_v);
    }
    (lines, refused)
}


/// Each path said from `root`, indented under its heading.
pub open spec fn indented(root: Seq<char>, paths: Seq<Seq<char>>) -> Seq<Seq<char>> {
    paths.map_values(|p: Seq<char>| "    "@ + spec_relative_to(root, p))
}

fn indented_exec(root: &str, paths: &Vec<String>) -> (lines: Vec<String>)
    ensures
        views(lines@) == indented(root@, views(paths@)),
{
    let mut lines: Vec<String> = Vec::new();
    let n = paths.len();
    let mut i: usize = 0;
    while i < n
        invariant
            n == paths@.len(),
            i <= n,
            views(lines@) == indented(root@, views(paths@).take(i as int)),
        decreases n - i,
    {
        let mut line = "    ".to_owned();
        let rel = relative_to(root, paths[i].as_str());
        line.append(rel.as_str());
        crate::text::push_owned(&mut lines, line);
        assert(indented(root@, views(paths@).take(i + 1)) =~= indented(root@, views(paths@).take(i as int)).push(
            "    "@ + spec_relative_to(root@, paths@[i as int]@),
        ));
        i += 1;
    }
    assert(views(paths@).take(n as int) =~= views(paths@));
    lines
}

/// The line about one folder holding more than the browser lists.
pub open spec fn crowded_line(root: Seq<char>, folder: Seq<char>, entries: u32, limit: Option<u32>) -> Seq<char> {
    "\n  "@ + spec_relative_to(root, folder) + " holds "@ + spec_decimal(entries as nat)
        + " entries, and the browser lists "@ + spec_decimal(
        match limit {
            Some(l) => l as nat,
            None => 0,
        },
    )
}

/// What a walk of a drive found, as the report says it before any track is
/// read: the counts, the files no player lists, and every hole in the walk,
/// named from the root.
pub open spec fn spec_contents_lines(root: Seq<char>, contents: crate::scan::Contents, limits: crate::scan::Limits) -> Seq<Seq<char>> {
    let tracks = contents.tracks@.len();
    let summary = seq![
        "\n  "@ + spec_decimal(tracks) + " "@ + spec_plural(tracks, "track"@) + ", "@ + spec_decimal(
            contents.folders as nat,
        ) + " "@ + spec_plural(contents.folders as nat, "folder"@) + ", "@ + spec_decimal(
            contents.deepest as nat,
        ) + " deep"@,
    ];
    let others = if contents.other_files > 0 {
        summary.push(
            "  "@ + spec_decimal(contents.other_files as nat) + " "@ + spec_plural(
                contents.other_files as nat,
                "other file"@,
            ) + " no player will list"@,
        )
    } else {
        summary
    };
    let unreadable = if contents.unreadable@.len() > 0 {
        others.push("\n  could not be read, so nothing inside it was checked"@) + spec_capped(
            indented(root, views(contents.unreadable@)),
        )
    } else {
        others
    };
    let unreachable = if contents.unreachable@.len() > 0 {
        unreadable.push(
            "\n  past "@ + spec_decimal(limits.folder_depth as nat)
                + " folders deep, so the browser never reaches it"@,
        ) + spec_capped(indented(root, views(contents.unreachable@)))
    } else {
        unreadable
    };
    unreachable + contents.crowded@.map_values(
        |c: crate::scan::Crowded| crowded_line(root, c.folder@, c.entries, limits.entries_per_folder),
    )
}

pub fn contents_lines(root: &str, contents: &crate::scan::Contents, limits: crate::scan::Limits) -> (lines: Vec<String>)
    ensures
        views(lines@) == spec_contents_lines(root@, *contents, limits),
{
    let tracks = contents.tracks.len();
    let mut lines: Vec<String> = Vec::new();
    let mut first = "\n  ".to_owned();
    let t = decimal(tracks as u64);
    first.append(t.as_str());
    first.append(" ");
    let tp = plural(tracks, "track");
    first.append(tp.as_str());
    first.append(", ");
    let f = decimal(contents.folders as u64);
    first.append(f.as_str());
    first.append(" ");
    let fp = plural(contents.folders, "folder");
    first.append(fp.as_str());
    first.append(", ");
    let d = decimal(contents.deepest as u64);
    first.append(d.as_str());
    first.append(" deep");
    crate::text::push_owned(&mut lines, first);
    if contents.other_files > 0 {
        let mut line = "  ".to_owned();
        let o = decimal(contents.other_files as u64);
        line.append(o.as_str());
        line.append(" ");
        let op = plural(contents.other_files, "other file");
        line.append(op.as_str());
        line.append(" no player will list");
        crate::text::push_owned(&mut lines, line);
    }
    if contents.unreadable.len() > 0 {
        crate::text::push_arg(&mut lines, "\n  could not be read, so nothing inside it was checked");
        let mut named = capped(indented_exec(root, &contents.unreadable));
        let ghost before = views(lines@);
        let ghost more = views(named@);
        lines.append(&mut named);
        assert(views(lines@) =~= before + more);
    }
    if contents.unreachable.len() > 0 {
        let mut heading = "\n  past ".to_owned();
        let depth = decimal(limits.folder_depth as u64);
        heading.append(depth.as_str());
        heading.append(" folders deep, so the browser never reaches it");
        crate::text::push_owned(&mut lines, heading);
        let mut named = capped(indented_exec(root, &contents.unreachable));
        let ghost before = views(lines@);
        let ghost more = views(named@);
        lines.append(&mut named);
        assert(views(lines@) =~= before + more);
    }
    let ghost base = views(lines@);
    let limit: u64 = match limits.entries_per_folder {
        Some(l) => l as u64,
        None => 0,
    };
    let ghost crowded_v = contents.crowded@.map_values(
        |c: crate::scan::Crowded| crowded_line(root@, c.folder@, c.entries, limits.entries_per_folder),
    );
    let n = contents.crowded.len();
    let mut i: usize = 0;
    assert(base =~= base + crowded_v.take(0));
    while i < n
        invariant
            n == contents.crowded@.len(),
            i <= n,
            crowded_v == contents.crowded@.map_values(
                |c: crate::scan::Crowded| crowded_line(root@, c.folder@, c.entries, limits.entries_per_folder),
            ),
            limit == match limits.entries_per_folder {
                Some(l) => l as nat,
                None => 0,
            },
            views(lines@) == base + crowded_v.take(i as int),
        decreases n - i,
    {
        let c = &contents.crowded[i];
        let mut line = "\n  ".to_owned();
        let rel = relative_to(root, c.folder.as_str());
        line.append(rel.as_str());
        line.append(" holds ");
        let e = decimal(c.entries as u64);
        line.append(e.as_str());
        line.append(" entries, and the browser lists ");
        let l = decimal(limit);
        line.append(l.as_str());
        crate::text::push_owned(&mut lines, line);
        assert(crowded_v.take(i + 1) =~= crowded_v.take(i as int).push(crowded_v[i as int]));
        assert(views(lines@) =~= base + crowded_v.take(i + 1));
        i += 1;
    }
    assert(crowded_v.take(n as int) =~= crowded_v);
    lines
}

/// Why a track fails: the first line of why it could not be read, or each
/// refusing player with what to change.
pub open spec fn spec_why<'a>(verdict: crate::scan::Verdict<'a>) -> Seq<char> {
    match verdict.error {
        Some(e) => spec_first_line(e@),
        None => joined_by(
            verdict.refused_by@.map_values(
                |r: crate::scan::Refusal<'a>| r.player.display_name@ + ": "@ + spec_reasons(r.issues@),
            ),
            ", "@,
        ),
    }
}

pub fn why(verdict: &crate::scan::Verdict) -> (text: String)
    ensures
        text@ == spec_why(*verdict),
{
    match &verdict.error {
        Some(e) => first_line(e.as_str()),
        None => {
            let ghost parts = verdict.refused_by@.map_values(
                |r: crate::scan::Refusal| r.player.display_name@ + ": "@ + spec_reasons(r.issues@),
            );
            let mut each: Vec<String> = Vec::new();
            let n = verdict.refused_by.len();
            let mut i: usize = 0;
            while i < n
                invariant
                    n == verdict.refused_by@.len(),
                    i <= n,
                    parts == verdict.refused_by@.map_values(
                        |r: crate::scan::Refusal| r.player.display_name@ + ": "@ + spec_reasons(r.issues@),
                    ),
                    views(each@) == parts.take(i as int),
                decreases n - i,
            {
                let r = &verdict.refused_by[i];
                let mut line = r.player.display_name.to_owned();
                line.append(": ");
                let rs = reasons(&r.issues);
                line.append(rs.as_str());
                crate::text::push_owned(&mut each, line);
                assert(parts.take(i + 1) =~= parts.take(i as int).push(parts[i as int]));
                i += 1;
            }
            assert(parts.take(n as int) =~= parts);
            join_owned(&each, ", ")
        },
    }
}

/// The verdicts that are not clean, in order.
pub open spec fn failing_of<'a>(verdicts: Seq<crate::scan::Verdict<'a>>) -> Seq<crate::scan::Verdict<'a>>
    decreases verdicts.len(),
{
    if verdicts.len() == 0 {
        Seq::empty()
    } else {
        let earlier = failing_of(verdicts.drop_last());
        let v = verdicts.last();
        if v.error is None && v.refused_by@.len() == 0 {
            earlier
        } else {
            earlier.push(v)
        }
    }
}

/// What the report says once each track is read: how many play, said
/// either way round, and when some do not, which and why. `clean` is whether
/// the walk left no holes; the result is whether every player takes the
/// drive.
pub open spec fn spec_verdict_lines<'a>(root: Seq<char>, clean: bool, verdicts: Seq<crate::scan::Verdict<'a>>) -> (Seq<Seq<char>>, bool) {
    let tracks = verdicts.len();
    let failing = failing_of(verdicts);
    let count = if tracks > 0 {
        seq![
            "\n  "@ + spec_decimal((tracks - failing.len()) as nat) + " of the "@ + spec_decimal(tracks)
                + " "@ + spec_plural(tracks, "track"@) + (if clean {
                ""@
            } else {
                " found"@
            }) + " will play on every player named"@,
        ]
    } else {
        Seq::empty()
    };
    if failing.len() == 0 {
        (count, clean)
    } else {
        (count.push(
            "\n  "@ + spec_decimal(failing.len()) + " "@ + spec_plural(failing.len(), "track"@)
                + " at least one player will not take"@,
        ) + spec_capped(
            failing.map_values(
                |v: crate::scan::Verdict<'a>| "    "@ + padded(spec_relative_to(root, v.path@), 38) + " "@ + spec_why(v),
            ),
        ), false)
    }
}

pub fn verdict_lines(root: &str, clean: bool, verdicts: &Vec<crate::scan::Verdict>) -> (report: (Vec<String>, bool))
    ensures
        (views(report.0@), report.1) == spec_verdict_lines(root@, clean, verdicts@),
{
    let ghost failing_v = failing_of(verdicts@);
    let mut failing_lines: Vec<String> = Vec::new();
    let n = verdicts.len();
    let mut failing: usize = 0;
    let mut i: usize = 0;
    let ghost line_of = |v: crate::scan::Verdict| "    "@ + padded(spec_relative_to(root@, v.path@), 38) + " "@ + spec_why(v);
    while i < n
        invariant
            n == verdicts@.len(),
            i <= n,
            failing == failing_of(verdicts@.take(i as int)).len(),
            failing <= i,
            views(failing_lines@) == failing_of(verdicts@.take(i as int)).map_values(line_of),
            line_of == |v: crate::scan::Verdict| "    "@ + padded(spec_relative_to(root@, v.path@), 38) + " "@ + spec_why(v),
        decreases n - i,
    {
        let v = &verdicts[i];
        proof {
            let t = verdicts@.take(i + 1);
            assert(t.drop_last() =~= verdicts@.take(i as int));
            assert(t.last() == verdicts@[i as int]);
        }
        if !v.plays() {
            failing += 1;
            let mut line = "    ".to_owned();
            let rel = relative_to(root, v.path.as_str());
            let padded_rel = pad(rel.as_str(), 38);
            line.append(padded_rel.as_str());
            line.append(" ");
            let w = why(v);
            line.append(w.as_str());
            let ghost before = views(failing_lines@);
            crate::text::push_owned(&mut failing_lines, line);
            assert(views(failing_lines@) =~= failing_of(verdicts@.take(i + 1)).map_values(line_of));
        }
        i += 1;
    }
    assert(verdicts@.take(n as int) =~= verdicts@);
    let mut lines: Vec<String> = Vec::new();
    if n > 0 {
        let mut line = "\n  ".to_owned();
        let playing = decimal((n - failing) as u64);
        line.append(playing.as_str());
        line.append(" of the ");
        let total = decimal(n as u64);
        line.append(total.as_str());
        line.append(" ");
        let tp = plural(n, "track");
        line.append(tp.as_str());
        if !clean {
            line.append(" found");
        }
        line.append(" will play on every player named");
        proof {
            reveal_strlit("");
        }
        assert(clean ==> line@ =~= "\n  "@ + spec_decimal((n - failing) as nat) + " of the "@ + spec_decimal(n as nat) + " "@ + spec_plural(n as nat, "track"@) + ""@ + " will play on every player named"@);
        crate::text::push_owned(&mut lines, line);
    }
    if failing == 0 {
        return (lines, clean);
    }
    let mut heading = "\n  ".to_owned();
    let f = decimal(failing as u64);
    heading.append(f.as_str());
    heading.append(" ");
    let fp = plural(failing, "track");
    heading.append(fp.as_str());
    heading.append(" at least one player will not take");
    crate::text::push_owned(&mut lines, heading);
    let mut named = capped(failing_lines);
    let ghost before = views(lines@);
    let ghost more = views(named@);
    lines.append(&mut named);
    assert(views(lines@) =~= before + more);
    (lines, false)
}


/// A line for the terminal, and the stream it goes to.
#[derive(Debug, Clone, PartialEq, Eq)]
pub enum Said {
    Stdout(String),
    Stderr(String),
}

/// Each line as (whether it goes to stderr, its text).
pub open spec fn said_views(lines: Seq<Said>) -> Seq<(bool, Seq<char>)> {
    lines.map_values(
        |l: Said|
            match l {
                Said::Stdout(t) => (false, t@),
                Said::Stderr(t) => (true, t@),
            },
    )
}

/// Lines for stdout.
pub open spec fn outs(lines: Seq<Seq<char>>) -> Seq<(bool, Seq<char>)> {
    lines.map_values(|t: Seq<char>| (false, t))
}

/// What the check says of each file, in the order given: its report when a
/// player rejects it or every file is wanted, why it could not be read when
/// it could not; and how many of the files were rejected.
pub open spec fn spec_check_files(
    files: Seq<Seq<char>>,
    outcomes: Seq<Result<AudioSpec, crate::probe::ProbeError>>,
    players: Seq<DeviceProfile>,
    failing_only: bool,
) -> (Seq<(bool, Seq<char>)>, nat)
    decreases files.len(),
{
    if files.len() == 0 || outcomes.len() == 0 {
        (Seq::empty(), 0)
    } else {
        let (said, rejected) = spec_check_files(files.drop_last(), outcomes.drop_last(), players, failing_only);
        let file = files.last();
        match outcomes.last() {
            Ok(spec) => {
                let failing = exists|i: int| 0 <= i < players.len() && spec_check(spec, #[trigger] players[i]).len() > 0;
                let shown = if failing || !failing_only {
                    said + outs(spec_file_report(file, spec, players))
                } else {
                    said
                };
                (shown, if failing { rejected + 1 } else { rejected })
            },
            Err(error) => (said.push((true, file + ": "@ + crate::probe::spec_probe_message(error))), rejected + 1),
        }
    }
}

/// Everything the check prints once each file is read, and whether the run
/// is clear: there were files, no folder went unread, every file read, and
/// none rejected. One
/// file speaks for itself; several get a count, or a clean run under
/// `failing_only` would print nothing and look as if it did not work.
pub open spec fn spec_check_report(
    files: Seq<Seq<char>>,
    outcomes: Seq<Result<AudioSpec, crate::probe::ProbeError>>,
    players: Seq<DeviceProfile>,
    failing_only: bool,
    nothing_unread: bool,
) -> (Seq<(bool, Seq<char>)>, bool) {
    let (said, rejected) = spec_check_files(files, outcomes, players, failing_only);
    let counted = if files.len() > 1 {
        said.push((false, spec_decimal(rejected) + " of "@ + spec_decimal(files.len()) + " rejected"@))
    } else {
        said
    };
    (counted, files.len() > 0 && nothing_unread && rejected == 0)
}

pub fn check_report(
    files: &Vec<String>,
    outcomes: Vec<Result<AudioSpec, crate::probe::ProbeError>>,
    players: &[DeviceProfile],
    failing_only: bool,
    nothing_unread: bool,
) -> (report: (Vec<Said>, bool))
    requires
        outcomes@.len() == files@.len(),
    ensures
        (said_views(report.0@), report.1) == spec_check_report(
            views(files@),
            outcomes@,
            players@,
            failing_only,
            nothing_unread,
        ),
{
    let ghost all = outcomes@;
    let ghost fv = views(files@);
    let mut rest = outcomes;
    let n = files.len();
    let mut said: Vec<Said> = Vec::new();
    let mut rejected: usize = 0;
    let mut i: usize = 0;
    while i < n
        invariant
            n == files@.len(),
            n == all.len(),
            fv == views(files@),
            i <= n,
            rest@ == all.skip(i as int),
            (said_views(said@), rejected as nat) == spec_check_files(fv.take(i as int), all.take(i as int), players@, failing_only),
            rejected <= i,
        decreases n - i,
    {
        let outcome = rest.remove(0);
        assert(outcome == all[i as int]);
        assert(rest@ =~= all.skip(i + 1));
        proof {
            assert(fv.take(i + 1).drop_last() =~= fv.take(i as int));
            assert(all.take(i + 1).drop_last() =~= all.take(i as int));
            assert(fv.take(i + 1).last() == files@[i as int]@);
            assert(all.take(i + 1).last() == outcome);
        }
        let file = files[i].as_str();
        match outcome {
            Ok(spec) => {
                let failing = rejected_anywhere(&spec, players);
                if failing {
                    rejected += 1;
                }
                if failing || !failing_only {
                    let lines = file_report(file, &spec, players);
                    let ghost before = said_views(said@);
                    let m = lines.len();
                    let mut k: usize = 0;
                    while k < m
                        invariant
                            m == lines@.len(),
                            k <= m,
                            said_views(said@) == before + outs(views(lines@).take(k as int)),
                        decreases m - k,
                    {
                        let ghost prev = said_views(said@);
                        let copy = lines[k].clone();
                        assert(copy@ == lines@[k as int]@);
                        said.push(Said::Stdout(copy));
                        assert(said_views(said@) =~= prev.push((false, lines@[k as int]@)));
                        assert(outs(views(lines@).take(k + 1)) =~= outs(views(lines@).take(k as int)).push((false, lines@[k as int]@)));
                        assert(said_views(said@) =~= before + outs(views(lines@).take(k + 1)));
                        k += 1;
                    }
                    assert(views(lines@).take(m as int) =~= views(lines@));
                }
            },
            Err(error) => {
                let mut line = file.to_owned();
                line.append(": ");
                let message = error.message();
                line.append(message.as_str());
                let ghost before = said_views(said@);
                said.push(Said::Stderr(line));
                assert(said_views(said@) =~= before.push((true, files@[i as int]@ + ": "@ + crate::probe::spec_probe_message(error))));
                rejected += 1;
            },
        }
        i += 1;
    }
    assert(fv.take(n as int) =~= fv);
    assert(all.take(n as int) =~= all);
    if n > 1 {
        let mut line = decimal(rejected as u64);
        line.append(" of ");
        let total = decimal(n as u64);
        line.append(total.as_str());
        line.append(" rejected");
        let ghost before = said_views(said@);
        said.push(Said::Stdout(line));
        assert(said_views(said@) =~= before.push((false, spec_decimal(rejected as nat) + " of "@ + spec_decimal(n as nat) + " rejected"@)));
    }
    (said, n > 0 && nothing_unread && rejected == 0)
}

/// What a finished job's line says of how it was done.
pub open spec fn spec_how(action: crate::plan::Action) -> Seq<char> {
    match action {
        crate::plan::Action::Copy => "copied"@,
        crate::plan::Action::Retag => "tags rewritten, audio untouched"@,
        crate::plan::Action::Encode { dither } => if dither {
            "encoded, dithered"@
        } else {
            "encoded"@
        },
    }
}

/// The name a job's line gives its input: the file's name, or the path as
/// given where it names none.
pub open spec fn input_name(input: Seq<char>) -> Seq<char> {
    match spec_file_name(spec_components(input)) {
        Some(n) => n,
        None => input,
    }
}

/// One line per finished job, numbered by when it finished: where a result
/// landed and how, or why it did not.
pub open spec fn spec_job_line(
    finished: nat,
    total: nat,
    job: crate::convert::Job,
    root: Option<Seq<char>>,
    result: Result<(), crate::convert::ConvertError>,
) -> (bool, Seq<char>) {
    let counter = "["@ + spec_decimal(finished) + "/"@ + spec_decimal(total) + "] "@ + input_name(job.input@);
    match result {
        Ok(()) => (false, counter + " -> "@ + spec_landed_at(job.output@, root) + "  ("@ + spec_how(job.plan.action) + ")"@),
        Err(e) => (true, counter + ": "@ + crate::convert::spec_convert_message(e)),
    }
}

pub fn job_line(
    finished: usize,
    total: usize,
    job: &crate::convert::Job,
    root: Option<&str>,
    result: &Result<(), crate::convert::ConvertError>,
) -> (line: Said)
    ensures
        said_views(seq![line]) == seq![spec_job_line(finished as nat, total as nat, *job, crate::files::text_view(root), *result)],
{
    let mut text = "[".to_owned();
    let f = decimal(finished as u64);
    text.append(f.as_str());
    text.append("/");
    let t = decimal(total as u64);
    text.append(t.as_str());
    text.append("] ");
    let cs = components(job.input.as_str());
    let n = cs.len();
    if n > 0 && crate::path::is_normal_exec(cs[n - 1].as_str()) {
        text.append(cs[n - 1].as_str());
    } else {
        text.append(job.input.as_str());
    }
    match result {
        Ok(()) => {
            text.append(" -> ");
            let landed = landed_at(job.output.as_str(), root);
            text.append(landed.as_str());
            text.append("  (");
            let how = match job.plan.action {
                crate::plan::Action::Copy => "copied",
                crate::plan::Action::Retag => "tags rewritten, audio untouched",
                crate::plan::Action::Encode { dither } => if dither {
                    "encoded, dithered"
                } else {
                    "encoded"
                },
            };
            text.append(how);
            text.append(")");
            let line = Said::Stdout(text);
            assert(said_views(seq![line]) =~= seq![spec_job_line(finished as nat, total as nat, *job, crate::files::text_view(root), *result)]);
            line
        },
        Err(e) => {
            text.append(": ");
            let message = e.message();
            text.append(message.as_str());
            let line = Said::Stderr(text);
            assert(said_views(seq![line]) =~= seq![spec_job_line(finished as nat, total as nat, *job, crate::files::text_view(root), *result)]);
            line
        },
    }
}

/// The device list's heading.
pub open spec fn spec_device_header() -> Seq<char> {
    padded("DEVICE"@, 14) + padded_left("YEAR"@, 5) + "  "@ + padded_left("MP3"@, 6) + padded_left("AAC"@, 6)
        + padded_left("WAV"@, 7) + padded_left("AIFF"@, 7) + padded_left("FLAC"@, 7) + padded_left("ALAC"@, 7)
        + "  EXFAT"@
}

pub fn device_header() -> (line: String)
    ensures
        line@ == spec_device_header(),
{
    let mut line = pad("DEVICE", 14);
    let parts = [pad_left("YEAR", 5), "  ".to_owned(), pad_left("MP3", 6), pad_left("AAC", 6), pad_left("WAV", 7), pad_left("AIFF", 7), pad_left("FLAC", 7), pad_left("ALAC", 7), "  EXFAT".to_owned()];
    line.append(parts[0].as_str());
    line.append(parts[1].as_str());
    line.append(parts[2].as_str());
    line.append(parts[3].as_str());
    line.append(parts[4].as_str());
    line.append(parts[5].as_str());
    line.append(parts[6].as_str());
    line.append(parts[7].as_str());
    line.append(parts[8].as_str());
    line
}

/// One row of the device list: the player, its year, the highest rate it
/// documents for each codec, and whether it reads exFAT.
pub open spec fn spec_device_row(device: DeviceProfile) -> Seq<char> {
    padded(device.display_name@, 14) + padded_left(spec_decimal(device.release_year as nat), 5) + "  "@
        + padded_left(spec_max_rate(device, Codec::Mp3), 6) + padded_left(spec_max_rate(device, Codec::AacLc), 6)
        + padded_left(spec_max_rate(device, Codec::PcmWav), 7) + padded_left(spec_max_rate(device, Codec::PcmAiff), 7)
        + padded_left(spec_max_rate(device, Codec::Flac), 7) + padded_left(spec_max_rate(device, Codec::Alac), 7)
        + "  "@ + spec_describe(crate::device::first_support(device.filesystems@, FileSystem::ExFat))
}

pub fn device_row(device: &DeviceProfile) -> (line: String)
    ensures
        line@ == spec_device_row(*device),
{
    let mut line = pad(device.display_name, 14);
    let year = decimal(device.release_year as u64);
    let y = pad_left(year.as_str(), 5);
    line.append(y.as_str());
    line.append("  ");
    let r1 = max_rate(device, Codec::Mp3);
    let c1 = pad_left(r1.as_str(), 6);
    line.append(c1.as_str());
    let r2 = max_rate(device, Codec::AacLc);
    let c2 = pad_left(r2.as_str(), 6);
    line.append(c2.as_str());
    let r3 = max_rate(device, Codec::PcmWav);
    let c3 = pad_left(r3.as_str(), 7);
    line.append(c3.as_str());
    let r4 = max_rate(device, Codec::PcmAiff);
    let c4 = pad_left(r4.as_str(), 7);
    line.append(c4.as_str());
    let r5 = max_rate(device, Codec::Flac);
    let c5 = pad_left(r5.as_str(), 7);
    line.append(c5.as_str());
    let r6 = max_rate(device, Codec::Alac);
    let c6 = pad_left(r6.as_str(), 7);
    line.append(c6.as_str());
    line.append("  ");
    line.append(describe(device.filesystem_support(FileSystem::ExFat)));
    line
}


proof fn lemma_decimal_has_no_newline(n: nat)
    ensures
        forall|i: int| 0 <= i < spec_decimal(n).len() ==> spec_decimal(n)[i] != '\n',
{
    lemma_decimal_digits(n);
    assert forall|i: int| 0 <= i < spec_decimal(n).len() implies spec_decimal(n)[i] != '\n' by {
        assert(48 <= spec_decimal(n)[i] as int <= 57);
    }
}

/// The counter returns to the start of its own line and never starts a new
/// one, so it overwrites itself rather than scrolling.
pub proof fn progress_stays_on_its_own_line(done: nat, total: nat)
    ensures
        spec_progress_line(done, total)[0] == '\r',
        forall|i: int|
            0 <= i < spec_progress_line(done, total).len() ==> spec_progress_line(done, total)[i] != '\n',
{
    reveal_strlit("\r\u{1b}[Kchecking ");
    reveal_strlit("/");
    lemma_decimal_has_no_newline(done);
    lemma_decimal_has_no_newline(total);
    let head = "\r\u{1b}[Kchecking "@;
    let line = spec_progress_line(done, total);
    assert forall|i: int| 0 <= i < line.len() implies line[i] != '\n' by {
        let a = head + spec_decimal(done);
        let b = a + "/"@;
        if i < head.len() {
            assert(line[i] == head[i]);
        } else if i < a.len() {
            assert(line[i] == spec_decimal(done)[i - head.len()]);
        } else if i < b.len() {
            assert(line[i] == '/');
        } else {
            assert(line[i] == spec_decimal(total)[i - b.len()]);
        }
    }
}


/// The line said about a track that failed is one line: whatever the tool
/// wrote, it holds no line break.
pub proof fn a_failure_reads_as_one_line(message: Seq<char>)
    ensures
        forall|i: int| 0 <= i < spec_first_line(message).len() ==> spec_first_line(message)[i] != '\n',
{
    reveal_strlit("\n");
    reveal_strlit(": ");
    reveal_strlit("] ");
    reveal_strlit(": [");
    crate::text::lemma_find_is_first(message, "\n"@);
    lemma_find_bounds(message, "\n"@);
    let raw = match spec_find(message, "\n"@) {
        Some(k) => message.take(k),
        None => message,
    };
    assert forall|b: int| 0 <= b < raw.len() implies raw[b] != '\n' by {
        assert(raw[b] == message[b]);
        if message[b] == '\n' {
            assert(message.subrange(b, b + 1) =~= "\n"@);
            assert(crate::text::occurs_at(message, "\n"@, b));
        }
    }
    crate::text::lemma_trimmed_is_inside(raw);
    let line = first_line_of(message);
    assert(line == trimmed(raw));
    assert forall|i: int| 0 <= i < line.len() implies line[i] != '\n' by {
        let j = choose|j: int| 0 <= j < raw.len() && line[i] == raw[j];
        assert(raw[j] != '\n');
    }
    lemma_find_bounds(line, ": ["@);
    if let Some(start) = spec_find(line, ": ["@) {
        lemma_find_bounds(line.skip(start), "] "@);
        if let Some(off) = spec_find(line.skip(start), "] "@) {
            let end = start + off;
            assert(end + 2 <= line.len());
            let out = line.take(start) + ": "@ + line.skip(end + 2);
            if spec_find(line.subrange(start, end), " @ 0x"@) is Some {
                assert forall|i: int| 0 <= i < out.len() implies out[i] != '\n' by {
                    if i < start {
                        assert(out[i] == line[i]);
                    } else if i < start + 2 {
                        assert(out[i] == ": "@[i - start]);
                    } else {
                        assert(out[i] == line[end + 2 + (i - start - 2)]);
                    }
                }
            }
        }
    }
}


/// What a run that finds nothing to work on says.
pub const NO_AUDIO: &'static str = "no audio files among the paths given";

/// Some player among `players` refuses `spec`.
pub open spec fn refused_somewhere(spec: AudioSpec, players: Seq<DeviceProfile>) -> bool {
    exists|i: int| 0 <= i < players.len() && spec_check(spec, #[trigger] players[i]).len() > 0
}

/// Every file read, and none refused by any of `players`.
pub open spec fn all_read_and_taken(
    outcomes: Seq<Result<AudioSpec, crate::probe::ProbeError>>,
    players: Seq<DeviceProfile>,
) -> bool {
    forall|i: int|
        0 <= i < outcomes.len() ==> (#[trigger] outcomes[i] matches Ok(spec) && !refused_somewhere(
            spec,
            players,
        ))
}

proof fn lemma_nothing_rejected(
    files: Seq<Seq<char>>,
    outcomes: Seq<Result<AudioSpec, crate::probe::ProbeError>>,
    players: Seq<DeviceProfile>,
    failing_only: bool,
)
    requires
        files.len() == outcomes.len(),
    ensures
        (spec_check_files(files, outcomes, players, failing_only).1 == 0) == all_read_and_taken(
            outcomes,
            players,
        ),
    decreases files.len(),
{
    if files.len() > 0 {
        lemma_nothing_rejected(files.drop_last(), outcomes.drop_last(), players, failing_only);
        let last = outcomes.len() - 1;
        assert forall|i: int| 0 <= i < last implies outcomes.drop_last()[i] == outcomes[i] by {}
        if all_read_and_taken(outcomes, players) {
            assert(outcomes[last] matches Ok(spec) && !refused_somewhere(spec, players));
            assert(all_read_and_taken(outcomes.drop_last(), players));
        }
        if all_read_and_taken(outcomes.drop_last(), players) && (outcomes[last] matches Ok(spec)
            && !refused_somewhere(spec, players)) {
            assert forall|i: int| 0 <= i < outcomes.len() implies (#[trigger] outcomes[i] matches Ok(
                spec,
            ) && !refused_somewhere(spec, players)) by {
                if i < last {
                    assert(outcomes.drop_last()[i] == outcomes[i]);
                }
            }
        }
    } else {
        assert(all_read_and_taken(outcomes, players));
    }
}

/// The whole check run after reading: the players named, the files found,
/// and what reading each gave. Unknown players, or no files at all, end it
/// with the reason; otherwise it is the report of every file.
pub open spec fn spec_check_outcome(
    players: Result<Seq<DeviceProfile>, Seq<char>>,
    files: Seq<Seq<char>>,
    outcomes: Seq<Result<AudioSpec, crate::probe::ProbeError>>,
    failing_only: bool,
    nothing_unread: bool,
) -> (Seq<(bool, Seq<char>)>, bool) {
    match players {
        Err(message) => (seq![(true, message)], false),
        Ok(ps) => if files.len() == 0 {
            (seq![(true, NO_AUDIO@)], false)
        } else {
            spec_check_report(files, outcomes, ps, failing_only, nothing_unread)
        },
    }
}

/// What the check says and whether it passes. It passes exactly when the
/// players named all exist, some file was found, no folder went unread,
/// and every file was read and taken by every player named.
pub fn check_outcome(
    players: &Result<Vec<DeviceProfile>, String>,
    files: &Vec<String>,
    outcomes: Vec<Result<AudioSpec, crate::probe::ProbeError>>,
    failing_only: bool,
    nothing_unread: bool,
) -> (report: (Vec<Said>, bool))
    requires
        outcomes@.len() == files@.len(),
    ensures
        (said_views(report.0@), report.1) == spec_check_outcome(
            match players {
                Ok(ps) => Ok(ps@),
                Err(m) => Err(m@),
            },
            views(files@),
            outcomes@,
            failing_only,
            nothing_unread,
        ),
        report.1 == (players matches Ok(ps) && files@.len() > 0 && nothing_unread
            && all_read_and_taken(outcomes@, ps@)),
{
    let ps = match players {
        Err(message) => {
            let mut said: Vec<Said> = Vec::new();
            said.push(Said::Stderr(message.clone()));
            assert(said_views(said@) =~= seq![(true, message@)]);
            return (said, false);
        },
        Ok(ps) => ps,
    };
    if files.len() == 0 {
        let mut said: Vec<Said> = Vec::new();
        said.push(Said::Stderr(NO_AUDIO.to_owned()));
        assert(said_views(said@) =~= seq![(true, NO_AUDIO@)]);
        return (said, false);
    }
    proof {
        lemma_nothing_rejected(views(files@), outcomes@, ps@, failing_only);
    }
    check_report(files, outcomes, ps.as_slice(), failing_only, nothing_unread)
}

/// Whether a conversion run succeeded: something was found to convert, no
/// folder went unread, every file became a job, and every job ran.
pub fn jobs_verdict(
    nothing_unread: bool,
    prepared: &Vec<Result<crate::convert::Job, crate::convert::PrepareError>>,
    results: &Vec<Result<(), crate::convert::ConvertError>>,
) -> (done: bool)
    ensures
        done == (prepared@.len() > 0 && nothing_unread && (forall|i: int|
            0 <= i < prepared@.len() ==> (#[trigger] prepared@[i]) is Ok) && (forall|i: int|
            0 <= i < results@.len() ==> (#[trigger] results@[i]) is Ok)),
{
    if prepared.len() == 0 || !nothing_unread {
        return false;
    }
    let mut i: usize = 0;
    while i < prepared.len()
        invariant
            i <= prepared@.len(),
            forall|j: int| 0 <= j < i ==> (#[trigger] prepared@[j]) is Ok,
        decreases prepared@.len() - i,
    {
        if prepared[i].is_err() {
            return false;
        }
        i += 1;
    }
    let mut k: usize = 0;
    while k < results.len()
        invariant
            k <= results@.len(),
            forall|j: int| 0 <= j < k ==> (#[trigger] results@[j]) is Ok,
        decreases results@.len() - k,
    {
        if results[k].is_err() {
            return false;
        }
        k += 1;
    }
    true
}

} // verus!

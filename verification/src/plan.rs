//! Deciding what a conversion will do, before anything runs.

use vstd::prelude::*;

use crate::compat::AudioSpec;
use crate::device::Codec;
use crate::text::{decimal, lemma_decimal_digits, push_arg, push_owned, spec_decimal, str_eq, views};

verus! {

/// How the output's sampling rate follows from the source's.
#[derive(Debug, Clone, Copy, PartialEq, Eq, Structural)]
pub enum SampleRatePolicy {
    /// Whatever the source has.
    Preserve,
    /// Always this rate, resampling up or down to reach it.
    Fixed(u32),
    /// The source rate, unless it is above this.
    CapAt(u32),
}

/// How the output's bit depth follows from the source's.
#[derive(Debug, Clone, Copy, PartialEq, Eq, Structural)]
pub enum BitDepthPolicy {
    Preserve,
    Fixed(u8),
    CapAt(u8),
}

/// What happens to embedded artwork.
#[derive(Debug, Clone, Copy, PartialEq, Eq, Structural)]
pub enum Artwork {
    /// Carry it across untouched, labelled the way players expect.
    Keep,
    /// Leave it behind.
    Remove,
}

/// The tag fields the DJ policy empties: where shops and rippers leave their
/// advertising.
pub const DJ_CLEARED: [&'static str; 2] = ["comment", "lyrics-eng"];

/// The tag fields emptied for people who keep their own notes in the comment.
pub const LYRICS_ONLY: [&'static str; 1] = ["lyrics-eng"];

/// What happens to the tags a file arrives with.
#[derive(Debug, Clone, Copy, PartialEq, Eq)]
pub struct MetadataPolicy {
    /// Tag fields to empty out. Everything else is carried across.
    pub clear: &'static [&'static str],
    pub artwork: Artwork,
}

/// The names of the fields a policy empties.
pub open spec fn cleared(policy: MetadataPolicy) -> Seq<Seq<char>> {
    policy.clear@.map_values(|field: &str| field@)
}

/// Applying the policy changes a file's bytes.
pub open spec fn spec_rewrites_anything(policy: MetadataPolicy) -> bool {
    policy.clear@.len() != 0 || policy.artwork == Artwork::Remove
}

impl MetadataPolicy {
    /// Comment and lyrics go, everything else stays, artwork included.
    pub fn dj() -> (policy: Self)
        ensures
            policy.clear@ == DJ_CLEARED@,
            policy.artwork == Artwork::Keep,
    {
        Self { clear: &DJ_CLEARED, artwork: Artwork::Keep }
    }

    /// The same, keeping the comment: that is where DJs keep cue notes and
    /// Camelot keys. The lyrics still go.
    pub fn keeping_comments() -> (policy: Self)
        ensures
            policy.clear@ == LYRICS_ONLY@,
            policy.artwork == Artwork::Keep,
    {
        Self { clear: &LYRICS_ONLY, artwork: Artwork::Keep }
    }

    /// Whether applying this would change a file at all. Keeping the artwork
    /// and clearing nothing leaves the bytes as they were.
    pub fn rewrites_anything(&self) -> (rewrites: bool)
        ensures
            rewrites == spec_rewrites_anything(*self),
    {
        self.clear.len() != 0 || self.artwork == Artwork::Remove
    }
}

/// What to convert into.
#[derive(Debug, Clone, Copy, PartialEq, Eq)]
pub struct Target {
    pub codec: Codec,
    pub sample_rate: SampleRatePolicy,
    /// Ignored for lossy codecs, which carry no bit depth.
    pub bit_depth: BitDepthPolicy,
    /// Ignored for lossless codecs.
    pub bitrate_kbps: Option<u16>,
    pub metadata: MetadataPolicy,
}

/// MP3 and AAC are the lossy codecs.
pub open spec fn spec_is_lossy(codec: Codec) -> bool {
    codec == Codec::Mp3 || codec == Codec::AacLc
}

pub fn is_lossy(codec: Codec) -> (lossy: bool)
    ensures
        lossy == spec_is_lossy(codec),
{
    match codec {
        Codec::Mp3 | Codec::AacLc => true,
        _ => false,
    }
}

/// The CDJ-safe profile: MP3 at 320 kbps and 44.1 kHz.
pub open spec fn is_cdj_safe(target: Target) -> bool {
    &&& target.codec == Codec::Mp3
    &&& target.sample_rate == SampleRatePolicy::Fixed(44_100)
    &&& target.bit_depth == BitDepthPolicy::Preserve
    &&& target.bitrate_kbps == Some(320u16)
    &&& target.metadata.clear@ == DJ_CLEARED@
    &&& target.metadata.artwork == Artwork::Keep
}

/// The lossless profile: AIFF, at most 48 kHz and 24-bit.
pub open spec fn is_lossless(target: Target) -> bool {
    &&& target.codec == Codec::PcmAiff
    &&& target.sample_rate == SampleRatePolicy::CapAt(48_000)
    &&& target.bit_depth == BitDepthPolicy::CapAt(24)
    &&& target.bitrate_kbps == None::<u16>
    &&& target.metadata.clear@ == DJ_CLEARED@
    &&& target.metadata.artwork == Artwork::Keep
}

/// The archive profile: FLAC at whatever the source was.
pub open spec fn is_archive(target: Target) -> bool {
    &&& target.codec == Codec::Flac
    &&& target.sample_rate == SampleRatePolicy::Preserve
    &&& target.bit_depth == BitDepthPolicy::Preserve
    &&& target.bitrate_kbps == None::<u16>
    &&& target.metadata.clear@ == DJ_CLEARED@
    &&& target.metadata.artwork == Artwork::Keep
}

/// The codec a format name stands for.
/// `target` is the built-in profile called `name`.
pub open spec fn profile_named(name: Seq<char>, target: Target) -> bool {
    ||| name == "cdj-safe"@ && is_cdj_safe(target)
    ||| name == "lossless"@ && is_lossless(target)
    ||| name == "archive"@ && is_archive(target)
}

/// `target` is what naming `format` alone asks for: that codec, the source's
/// rate and depth, 320 kbps where the codec is lossy, the DJ tag policy.
pub open spec fn format_target(format: Seq<char>, target: Target) -> bool {
    &&& Some(target.codec) == format_codec(format)
    &&& target.sample_rate == SampleRatePolicy::Preserve
    &&& target.bit_depth == BitDepthPolicy::Preserve
    &&& target.bitrate_kbps == if spec_is_lossy(target.codec) {
        Some(320u16)
    } else {
        None
    }
    &&& target.metadata.clear@ == DJ_CLEARED@
    &&& target.metadata.artwork == Artwork::Keep
}

pub open spec fn format_codec(format: Seq<char>) -> Option<Codec> {
    if format == "mp3"@ {
        Some(Codec::Mp3)
    } else if format == "aac"@ {
        Some(Codec::AacLc)
    } else if format == "alac"@ {
        Some(Codec::Alac)
    } else if format == "flac"@ {
        Some(Codec::Flac)
    } else if format == "wav"@ {
        Some(Codec::PcmWav)
    } else if format == "aiff"@ {
        Some(Codec::PcmAiff)
    } else {
        None
    }
}

impl Target {
    /// Every built-in profile name, for completion and error messages.
    pub const NAMES: [&'static str; 3] = ["cdj-safe", "lossless", "archive"];

    /// Format names accepted where a container is named directly.
    pub const FORMATS: [&'static str; 6] = ["mp3", "aac", "alac", "flac", "wav", "aiff"];

    /// Plays on every player in the table: MP3 at 320 kbps and 44.1 kHz.
    pub fn cdj_safe() -> (target: Self)
        ensures
            is_cdj_safe(target),
    {
        Self {
            codec: Codec::Mp3,
            sample_rate: SampleRatePolicy::Fixed(44_100),
            bit_depth: BitDepthPolicy::Preserve,
            bitrate_kbps: Some(320),
            metadata: MetadataPolicy::dj(),
        }
    }

    /// Lossless, and still playable everywhere: AIFF with the lowest ceilings
    /// any supported player accepts.
    pub fn lossless() -> (target: Self)
        ensures
            is_lossless(target),
    {
        Self {
            codec: Codec::PcmAiff,
            sample_rate: SampleRatePolicy::CapAt(48_000),
            bit_depth: BitDepthPolicy::CapAt(24),
            bitrate_kbps: None,
            metadata: MetadataPolicy::dj(),
        }
    }

    /// For the copy you keep rather than the one you play: FLAC at whatever
    /// the source was. Makes no promise about any player.
    pub fn archive() -> (target: Self)
        ensures
            is_archive(target),
    {
        Self {
            codec: Codec::Flac,
            sample_rate: SampleRatePolicy::Preserve,
            bit_depth: BitDepthPolicy::Preserve,
            bitrate_kbps: None,
            metadata: MetadataPolicy::dj(),
        }
    }

    /// The built-in profiles, by the name used on the command line.
    pub fn by_name(name: &str) -> (target: Option<Self>)
        ensures
            name@ == "cdj-safe"@ ==> (target matches Some(t) && is_cdj_safe(t)),
            name@ == "lossless"@ ==> (target matches Some(t) && is_lossless(t)),
            name@ == "archive"@ ==> (target matches Some(t) && is_archive(t)),
            target is Some <==> (name@ == "cdj-safe"@ || name@ == "lossless"@ || name@
                == "archive"@),
    {
        proof {
            reveal_strlit("cdj-safe");
            reveal_strlit("lossless");
            reveal_strlit("archive");
            assert("cdj-safe"@[0] != "lossless"@[0]);
            assert("cdj-safe"@[0] != "archive"@[0]);
            assert("lossless"@[0] != "archive"@[0]);
        }
        if str_eq(name, "cdj-safe") {
            Some(Self::cdj_safe())
        } else if str_eq(name, "lossless") {
            Some(Self::lossless())
        } else if str_eq(name, "archive") {
            Some(Self::archive())
        } else {
            None
        }
    }

    /// A target that changes the format and nothing else: the source's rate
    /// and depth are kept, and a lossy codec gets 320 kbps rather than the
    /// encoder's default.
    pub fn from_format(format: &str) -> (target: Option<Self>)
        ensures
            target is Some <==> format_codec(format@) is Some,
            target matches Some(t) ==> {
                &&& Some(t.codec) == format_codec(format@)
                &&& t.sample_rate == SampleRatePolicy::Preserve
                &&& t.bit_depth == BitDepthPolicy::Preserve
                &&& t.bitrate_kbps == if spec_is_lossy(t.codec) {
                    Some(320u16)
                } else {
                    None
                }
                &&& t.metadata.clear@ == DJ_CLEARED@
                &&& t.metadata.artwork == Artwork::Keep
            },
    {
        let codec = if str_eq(format, "mp3") {
            Codec::Mp3
        } else if str_eq(format, "aac") {
            Codec::AacLc
        } else if str_eq(format, "alac") {
            Codec::Alac
        } else if str_eq(format, "flac") {
            Codec::Flac
        } else if str_eq(format, "wav") {
            Codec::PcmWav
        } else if str_eq(format, "aiff") {
            Codec::PcmAiff
        } else {
            return None;
        };
        Some(
            Self {
                codec,
                sample_rate: SampleRatePolicy::Preserve,
                bit_depth: BitDepthPolicy::Preserve,
                bitrate_kbps: if is_lossy(codec) {
                    Some(320)
                } else {
                    None
                },
                metadata: MetadataPolicy::dj(),
            },
        )
    }

    /// A target that leaves the audio exactly as `source` has it and applies
    /// `metadata`: what tidying up tags asks of every file, whatever its
    /// format.
    pub fn keeping(source: &AudioSpec, metadata: MetadataPolicy) -> (target: Self)
        ensures
            target.codec == source.codec,
            target.sample_rate == SampleRatePolicy::Preserve,
            target.bit_depth == BitDepthPolicy::Preserve,
            target.bitrate_kbps == source.bitrate_kbps,
            target.metadata == metadata,
    {
        Self {
            codec: source.codec,
            sample_rate: SampleRatePolicy::Preserve,
            bit_depth: BitDepthPolicy::Preserve,
            bitrate_kbps: source.bitrate_kbps,
            metadata,
        }
    }
}

#[derive(Debug, Clone, Copy, PartialEq, Eq, Structural)]
pub enum Action {
    /// The source already matches the target, so copy the bytes across.
    Copy,
    /// The audio is already right but the tags are not: the stream is copied
    /// across untouched and only the metadata is rewritten.
    Retag,
    Encode { dither: bool },
}

/// What one file's conversion will produce, and how.
#[derive(Debug, Clone, Copy, PartialEq, Eq)]
pub struct Plan {
    pub output: AudioSpec,
    pub action: Action,
    pub metadata: MetadataPolicy,
}

pub open spec fn min_u32(a: u32, b: u32) -> u32 {
    if a <= b {
        a
    } else {
        b
    }
}

pub open spec fn min_u8(a: u8, b: u8) -> u8 {
    if a <= b {
        a
    } else {
        b
    }
}

pub open spec fn min_u16(a: u16, b: u16) -> u16 {
    if a <= b {
        a
    } else {
        b
    }
}

/// The output's sampling rate.
pub open spec fn resolved_rate(source: AudioSpec, target: Target) -> u32 {
    match target.sample_rate {
        SampleRatePolicy::Preserve => source.sample_rate_hz,
        SampleRatePolicy::Fixed(hz) => hz,
        SampleRatePolicy::CapAt(hz) => min_u32(source.sample_rate_hz, hz),
    }
}

/// The output's bit depth: none for a lossy target.
pub open spec fn resolved_depth(source: AudioSpec, target: Target) -> Option<u8> {
    if spec_is_lossy(target.codec) {
        None
    } else {
        match target.bit_depth {
            BitDepthPolicy::Preserve => source.bit_depth,
            BitDepthPolicy::Fixed(bits) => Some(bits),
            BitDepthPolicy::CapAt(bits) => match source.bit_depth {
                Some(depth) => Some(min_u8(depth, bits)),
                None => None,
            },
        }
    }
}

/// The output's bitrate: the target's, for a lossy target, but never above
/// what a lossy source arrived with.
pub open spec fn resolved_bitrate(source: AudioSpec, target: Target) -> Option<u16> {
    if !spec_is_lossy(target.codec) {
        None
    } else {
        match (target.bitrate_kbps, source.bitrate_kbps) {
            (Some(wanted), Some(arrived)) => if spec_is_lossy(source.codec) {
                Some(min_u16(wanted, arrived))
            } else {
                Some(wanted)
            },
            (wanted, _) => wanted,
        }
    }
}

/// What a conversion of `source` into `target` produces.
pub open spec fn spec_resolve(source: AudioSpec, target: Target) -> AudioSpec {
    AudioSpec {
        codec: target.codec,
        sample_rate_hz: resolved_rate(source, target),
        bit_depth: resolved_depth(source, target),
        bitrate_kbps: resolved_bitrate(source, target),
    }
}

/// Going from `source` to `output` throws bits of each sample away.
pub open spec fn spec_shortens(source: AudioSpec, output: AudioSpec) -> bool {
    match (source.bit_depth, output.bit_depth) {
        (Some(from), Some(to)) => to < from,
        _ => false,
    }
}

/// The plan for converting `source` into `target`.
pub open spec fn spec_plan(source: AudioSpec, target: Target) -> Plan {
    let output = spec_resolve(source, target);
    Plan {
        output,
        action: if output != source {
            Action::Encode { dither: spec_shortens(source, output) }
        } else if spec_rewrites_anything(target.metadata) {
            Action::Retag
        } else {
            Action::Copy
        },
        metadata: target.metadata,
    }
}

fn resolve(source: &AudioSpec, target: &Target) -> (output: AudioSpec)
    ensures
        output == spec_resolve(*source, *target),
{
    let lossy = is_lossy(target.codec);
    let sample_rate_hz = match target.sample_rate {
        SampleRatePolicy::Preserve => source.sample_rate_hz,
        SampleRatePolicy::Fixed(hz) => hz,
        SampleRatePolicy::CapAt(hz) => if source.sample_rate_hz <= hz {
            source.sample_rate_hz
        } else {
            hz
        },
    };
    let bit_depth = if lossy {
        None
    } else {
        match target.bit_depth {
            BitDepthPolicy::Preserve => source.bit_depth,
            BitDepthPolicy::Fixed(bits) => Some(bits),
            BitDepthPolicy::CapAt(bits) => match source.bit_depth {
                Some(depth) => Some(
                    if depth <= bits {
                        depth
                    } else {
                        bits
                    },
                ),
                None => None,
            },
        }
    };
    let bitrate_kbps = if !lossy {
        None
    } else {
        match (target.bitrate_kbps, source.bitrate_kbps) {
            (Some(wanted), Some(arrived)) => if is_lossy(source.codec) {
                Some(
                    if wanted <= arrived {
                        wanted
                    } else {
                        arrived
                    },
                )
            } else {
                Some(wanted)
            },
            (wanted, _) => wanted,
        }
    };
    AudioSpec { codec: target.codec, sample_rate_hz, bit_depth, bitrate_kbps }
}

/// Dither belongs to requantisation, not to resampling: only a shorter word
/// wants it, and a lossy encoder shapes its own noise.
fn shortens_word_length(source: &AudioSpec, output: &AudioSpec) -> (shortens: bool)
    ensures
        shortens == spec_shortens(*source, *output),
{
    match (source.bit_depth, output.bit_depth) {
        (Some(from), Some(to)) => to < from,
        _ => false,
    }
}

/// Work out the output and how to reach it.
///
/// The output follows the target's policies, and a lossy source is never
/// encoded above the bitrate it arrived with. A source that already is the
/// output is copied, or only has its tags rewritten when the metadata policy
/// changes anything; anything else is encoded, with dither exactly when the
/// word length shortens.
pub fn plan(source: &AudioSpec, target: &Target) -> (p: Plan)
    ensures
        p == spec_plan(*source, *target),
{
    let output = resolve(source, target);
    let action = if output != *source {
        Action::Encode { dither: shortens_word_length(source, &output) }
    } else if target.metadata.rewrites_anything() {
        Action::Retag
    } else {
        Action::Copy
    };
    Plan { output, action, metadata: target.metadata }
}

/// Below this a lossy source sounds thin, and converting cannot put back
/// what its first encoder threw away.
pub const THIN_BITRATE_KBPS: u16 = 192;

pub open spec fn spec_sounds_thin(spec: AudioSpec) -> bool {
    spec_is_lossy(spec.codec) && (spec.bitrate_kbps matches Some(kbps) && kbps < THIN_BITRATE_KBPS)
}

/// Whether a lossy source arrived under [`THIN_BITRATE_KBPS`].
pub fn sounds_thin(spec: &AudioSpec) -> (thin: bool)
    ensures
        thin == spec_sounds_thin(*spec),
{
    is_lossy(spec.codec) && match spec.bitrate_kbps {
        Some(kbps) => kbps < THIN_BITRATE_KBPS,
        None => false,
    }
}

// ---------------------------------------------------------------------------
// The ffmpeg options that carry a plan out.
// ---------------------------------------------------------------------------

/// `-metadata FIELD=` for every field to empty.
pub open spec fn clear_args(fields: Seq<Seq<char>>) -> Seq<Seq<char>>
    decreases fields.len(),
{
    if fields.len() == 0 {
        Seq::empty()
    } else {
        clear_args(fields.drop_last()).push("-metadata"@).push(fields.last() + "="@)
    }
}

/// The options that carry artwork across as a labelled sleeve.
pub open spec fn artwork_args() -> Seq<Seq<char>> {
    seq![
        "-c:v"@,
        "copy"@,
        "-disposition:v"@,
        "attached_pic"@,
        "-metadata:s:v"@,
        "title=Album cover"@,
        "-metadata:s:v"@,
        "comment=Cover (front)"@,
    ]
}

/// Tag handling: which fields to empty, what to do with the artwork, and
/// which ID3 version to write where that means anything.
pub open spec fn spec_metadata_args(policy: MetadataPolicy, codec: Codec) -> Seq<Seq<char>> {
    let base = seq!["-map_metadata"@, "0"@] + clear_args(cleared(policy)) + if policy.artwork
        == Artwork::Keep {
        artwork_args()
    } else {
        Seq::empty()
    };
    match codec {
        Codec::PcmAiff => base + seq!["-write_id3v2"@, "1"@, "-id3v2_version"@, "3"@],
        Codec::Mp3 => base + seq!["-id3v2_version"@, "3"@],
        _ => base,
    }
}

/// The ffmpeg encoder that writes `output`. PCM needs one per depth and byte
/// order; an undeclared depth reads as 16-bit.
pub open spec fn spec_encoder_name(output: AudioSpec) -> Seq<char> {
    let depth: nat = match output.bit_depth {
        Some(bits) => bits as nat,
        None => 16,
    };
    match output.codec {
        Codec::Mp3 => "libmp3lame"@,
        Codec::AacLc => "aac"@,
        Codec::Alac => "alac"@,
        Codec::Flac => "flac"@,
        Codec::PcmWav => "pcm_s"@ + spec_decimal(depth) + "le"@,
        Codec::PcmAiff => "pcm_s"@ + spec_decimal(depth) + "be"@,
    }
}

/// The options every plan starts with: the first audio stream, the artwork
/// if it is kept, and the audio codec flag.
pub open spec fn spec_head_args(plan: Plan) -> Seq<Seq<char>> {
    seq!["-map"@, "0:a:0"@] + (if plan.metadata.artwork == Artwork::Keep {
        seq!["-map"@, "0:v?"@]
    } else {
        Seq::empty()
    }) + seq!["-c:a"@]
}

/// Machine-readable progress on stdout.
pub open spec fn spec_progress_args() -> Seq<Seq<char>> {
    seq!["-nostats"@, "-progress"@, "pipe:1"@]
}

/// What an encode asks of the encoder: its name, the bitrate where there is
/// one, the rate, and dither where the word shortens.
pub open spec fn spec_encoding_args(plan: Plan) -> Seq<Seq<char>> {
    let output = plan.output;
    let bitrate: Seq<Seq<char>> = match output.bitrate_kbps {
        Some(kbps) => seq!["-b:a"@, spec_decimal(kbps as nat) + "k"@],
        None => Seq::empty(),
    };
    let dither: Seq<Seq<char>> = if plan.action == (Action::Encode { dither: true }) {
        seq!["-af"@, "aresample=dither_method=triangular_hp"@]
    } else {
        Seq::empty()
    };
    seq![spec_encoder_name(output)] + bitrate + seq![
        "-ar"@,
        spec_decimal(output.sample_rate_hz as nat),
    ] + dither
}

/// What follows `-i INPUT` for a plan.
pub open spec fn spec_encode_args(plan: Plan) -> Seq<Seq<char>> {
    if plan.action == Action::Retag {
        spec_head_args(plan) + seq!["copy"@] + spec_metadata_args(plan.metadata, plan.output.codec)
            + spec_progress_args()
    } else {
        spec_head_args(plan) + spec_encoding_args(plan) + spec_metadata_args(
            plan.metadata,
            plan.output.codec,
        ) + seq!["-threads"@, "1"@] + spec_progress_args()
    }
}

fn encoder_name(output: &AudioSpec) -> (name: String)
    ensures
        name@ == spec_encoder_name(*output),
{
    let depth: u8 = match output.bit_depth {
        Some(bits) => bits,
        None => 16,
    };
    match output.codec {
        Codec::Mp3 => "libmp3lame".to_owned(),
        Codec::AacLc => "aac".to_owned(),
        Codec::Alac => "alac".to_owned(),
        Codec::Flac => "flac".to_owned(),
        Codec::PcmWav => {
            let mut name = "pcm_s".to_owned();
            name.append(decimal(depth as u64).as_str());
            name.append("le");
            name
        },
        Codec::PcmAiff => {
            let mut name = "pcm_s".to_owned();
            name.append(decimal(depth as u64).as_str());
            name.append("be");
            name
        },
    }
}

fn metadata_args(policy: MetadataPolicy, codec: Codec) -> (args: Vec<String>)
    ensures
        views(args@) == spec_metadata_args(policy, codec),
{
    let mut args: Vec<String> = Vec::new();
    push_arg(&mut args, "-map_metadata");
    push_arg(&mut args, "0");
    let ghost start = views(args@);
    let n = policy.clear.len();
    let mut i: usize = 0;
    while i < n
        invariant
            n == policy.clear@.len(),
            i <= n,
            views(args@) == start + clear_args(cleared(policy).take(i as int)),
        decreases n - i,
    {
        let field = policy.clear[i];
        let mut assignment = field.to_owned();
        assignment.append("=");
        push_arg(&mut args, "-metadata");
        push_owned(&mut args, assignment);
        proof {
            let fields = cleared(policy);
            assert(fields.take(i + 1).drop_last() =~= fields.take(i as int));
            assert(fields.take(i + 1).last() == field@);
            assert(views(args@) =~= start + clear_args(fields.take(i + 1)));
        }
        i += 1;
    }
    assert(cleared(policy).take(n as int) =~= cleared(policy));
    if policy.artwork == Artwork::Keep {
        push_arg(&mut args, "-c:v");
        push_arg(&mut args, "copy");
        push_arg(&mut args, "-disposition:v");
        push_arg(&mut args, "attached_pic");
        push_arg(&mut args, "-metadata:s:v");
        push_arg(&mut args, "title=Album cover");
        push_arg(&mut args, "-metadata:s:v");
        push_arg(&mut args, "comment=Cover (front)");
    }
    let ghost base = views(args@);
    match codec {
        Codec::PcmAiff => {
            push_arg(&mut args, "-write_id3v2");
            push_arg(&mut args, "1");
            push_arg(&mut args, "-id3v2_version");
            push_arg(&mut args, "3");
        },
        Codec::Mp3 => {
            push_arg(&mut args, "-id3v2_version");
            push_arg(&mut args, "3");
        },
        _ => {},
    }
    proof {
        assert(base =~= seq!["-map_metadata"@, "0"@] + clear_args(cleared(policy)) + if policy.artwork
            == Artwork::Keep {
            artwork_args()
        } else {
            Seq::empty()
        });
        assert(views(args@) =~= spec_metadata_args(policy, codec));
    }
    args
}

fn push_head(args: &mut Vec<String>, plan: &Plan)
    ensures
        views(final(args)@) == views(old(args)@) + spec_head_args(*plan),
{
    push_arg(args, "-map");
    push_arg(args, "0:a:0");
    if plan.metadata.artwork == Artwork::Keep {
        push_arg(args, "-map");
        push_arg(args, "0:v?");
    }
    push_arg(args, "-c:a");
    proof {
        assert(views(args@) =~= views(old(args)@) + spec_head_args(*plan));
    }
}

fn push_progress(args: &mut Vec<String>)
    ensures
        views(final(args)@) == views(old(args)@) + spec_progress_args(),
{
    push_arg(args, "-nostats");
    push_arg(args, "-progress");
    push_arg(args, "pipe:1");
    proof {
        assert(views(args@) =~= views(old(args)@) + spec_progress_args());
    }
}

fn push_metadata(args: &mut Vec<String>, policy: MetadataPolicy, codec: Codec)
    ensures
        views(final(args)@) == views(old(args)@) + spec_metadata_args(policy, codec),
{
    let mut tags = metadata_args(policy, codec);
    let ghost tag_views = views(tags@);
    args.append(&mut tags);
    proof {
        assert(views(args@) =~= views(old(args)@) + tag_views);
    }
}

fn push_encoding(args: &mut Vec<String>, plan: &Plan)
    ensures
        views(final(args)@) == views(old(args)@) + spec_encoding_args(*plan),
{
    let output = plan.output;
    push_owned(args, encoder_name(&output));
    match output.bitrate_kbps {
        Some(kbps) => {
            push_arg(args, "-b:a");
            let mut rate = decimal(kbps as u64);
            rate.append("k");
            push_owned(args, rate);
        },
        None => {},
    }
    push_arg(args, "-ar");
    push_owned(args, decimal(output.sample_rate_hz as u64));
    if plan.action == (Action::Encode { dither: true }) {
        push_arg(args, "-af");
        push_arg(args, "aresample=dither_method=triangular_hp");
    }
    proof {
        assert(views(args@) =~= views(old(args)@) + spec_encoding_args(*plan));
    }
}

/// The ffmpeg options that carry out an encode, placed after `-i INPUT` and
/// before the output path. A retag copies the audio stream and touches only
/// the tags; an encode names the encoder, the bitrate, the rate and, where
/// the word shortens, triangular high-pass dither, and runs on one thread.
pub fn encode_args(plan: &Plan) -> (args: Vec<String>)
    ensures
        views(args@) == spec_encode_args(*plan),
{
    let mut args: Vec<String> = Vec::new();
    push_head(&mut args, plan);
    if plan.action == Action::Retag {
        push_arg(&mut args, "copy");
        push_metadata(&mut args, plan.metadata, plan.output.codec);
        push_progress(&mut args);
    } else {
        push_encoding(&mut args, plan);
        push_metadata(&mut args, plan.metadata, plan.output.codec);
        push_arg(&mut args, "-threads");
        push_arg(&mut args, "1");
        push_progress(&mut args);
    }
    proof {
        assert(views(args@) =~= spec_encode_args(*plan));
    }
    args
}

// ---------------------------------------------------------------------------
// What holds of every plan.
// ---------------------------------------------------------------------------

/// Planning a conversion's output again, with the same target, changes
/// nothing: the output already is what the target asks for, so a second run
/// copies or retags it and never encodes it again.
pub proof fn replanning_an_output_never_encodes(source: AudioSpec, target: Target)
    ensures
        spec_resolve(spec_plan(source, target).output, target) == spec_plan(source, target).output,
        !(spec_plan(spec_plan(source, target).output, target).action is Encode),
{
}

/// A source that already is what the target asks for is never encoded: it is
/// copied when the metadata policy changes nothing, and retagged otherwise.
pub proof fn a_matching_source_is_copied_or_retagged(source: AudioSpec, target: Target)
    requires
        spec_resolve(source, target) == source,
    ensures
        spec_plan(source, target).action == Action::Copy <==> !spec_rewrites_anything(
            target.metadata,
        ),
        spec_plan(source, target).action == Action::Retag <==> spec_rewrites_anything(
            target.metadata,
        ),
{
}

/// Dither is asked for exactly when an encode shortens the word length.
pub proof fn dither_only_when_the_word_shortens(source: AudioSpec, target: Target)
    ensures
        spec_plan(source, target).action == (Action::Encode { dither: true }) <==> {
            let output = spec_plan(source, target).output;
            &&& output != source
            &&& source.bit_depth is Some
            &&& output.bit_depth is Some
            &&& output.bit_depth->0 < source.bit_depth->0
        },
{
}

/// A lossy source is never encoded above the bitrate it arrived with.
pub proof fn a_lossy_source_keeps_at_most_its_bitrate(source: AudioSpec, target: Target)
    requires
        spec_is_lossy(source.codec),
        source.bitrate_kbps is Some,
    ensures
        spec_plan(source, target).output.bitrate_kbps matches Some(kbps) ==> kbps
            <= source.bitrate_kbps->0,
{
}

/// Naming a lossless format alone keeps the source's rate and depth.
pub proof fn a_format_alone_keeps_rate_and_depth(source: AudioSpec, target: Target)
    requires
        target.sample_rate == SampleRatePolicy::Preserve,
        target.bit_depth == BitDepthPolicy::Preserve,
        !spec_is_lossy(target.codec),
    ensures
        spec_plan(source, target).output.sample_rate_hz == source.sample_rate_hz,
        spec_plan(source, target).output.bit_depth == source.bit_depth,
{
}

/// A ceiling never raises: the output rate is at most both the source's and
/// the ceiling, and equals the source's when that is already under it.
pub proof fn a_ceiling_never_raises(source: AudioSpec, target: Target, hz: u32)
    requires
        target.sample_rate == SampleRatePolicy::CapAt(hz),
    ensures
        spec_plan(source, target).output.sample_rate_hz <= source.sample_rate_hz,
        spec_plan(source, target).output.sample_rate_hz <= hz,
        source.sample_rate_hz <= hz ==> spec_plan(source, target).output.sample_rate_hz
            == source.sample_rate_hz,
{
}


// ---------------------------------------------------------------------------
// The shape of the ffmpeg options.
// ---------------------------------------------------------------------------

/// `m` stands nowhere in `args`.
pub open spec fn lacks(args: Seq<Seq<char>>, m: Seq<char>) -> bool {
    forall|i: int| 0 <= i < args.len() ==> args[i] != m
}

/// `first` stands somewhere in `args` with `second` right after it.
pub open spec fn has_pair(args: Seq<Seq<char>>, first: Seq<char>, second: Seq<char>) -> bool {
    exists|i: int| 0 <= i < args.len() - 1 && #[trigger] args[i] == first && args[i + 1] == second
}

proof fn lemma_lacks_concat(a: Seq<Seq<char>>, b: Seq<Seq<char>>, m: Seq<char>)
    requires
        lacks(a, m),
        lacks(b, m),
    ensures
        lacks(a + b, m),
{
    assert forall|i: int| 0 <= i < (a + b).len() implies (a + b)[i] != m by {
        if i < a.len() {
            assert((a + b)[i] == a[i]);
        } else {
            assert((a + b)[i] == b[i - a.len()]);
        }
    }
}

/// The four options whose presence tells what a plan does.
pub open spec fn telling(e: Seq<char>) -> bool {
    e == "0:v?"@ || e == "-af"@ || e == "-threads"@ || e == "-b:a"@
}

/// None of the telling options stands in `args`.
pub open spec fn none_telling(args: Seq<Seq<char>>) -> bool {
    forall|i: int| 0 <= i < args.len() ==> !telling(#[trigger] args[i])
}

proof fn lemma_none_telling_concat(a: Seq<Seq<char>>, b: Seq<Seq<char>>)
    requires
        none_telling(a),
        none_telling(b),
    ensures
        none_telling(a + b),
{
    assert forall|i: int| 0 <= i < (a + b).len() implies !telling(#[trigger] (a + b)[i]) by {
        if i < a.len() {
            assert((a + b)[i] == a[i]);
        } else {
            assert((a + b)[i] == b[i - a.len()]);
        }
    }
}

proof fn lemma_none_telling_lacks(a: Seq<Seq<char>>)
    requires
        none_telling(a),
    ensures
        lacks(a, "0:v?"@),
        lacks(a, "-af"@),
        lacks(a, "-threads"@),
        lacks(a, "-b:a"@),
{
    assert forall|i: int| 0 <= i < a.len() implies a[i] != "0:v?"@ && a[i] != "-af"@ && a[i]
        != "-threads"@ && a[i] != "-b:a"@ by {
        assert(!telling(a[i]));
    }
}

proof fn lemma_decimal_not_telling(n: nat)
    ensures
        !telling(spec_decimal(n)),
        !telling(spec_decimal(n) + "k"@),
{
    reveal_strlit("0:v?");
    reveal_strlit("-af");
    reveal_strlit("-threads");
    reveal_strlit("-b:a");
    reveal_strlit("k");
    lemma_decimal_digits(n);
    let s = spec_decimal(n);
    assert(48 <= s[0] as int <= 57);
    assert(s != "-af"@ && s != "-threads"@ && s != "-b:a"@) by {
        assert(("-af"@)[0] == '-');
    }
    if s.len() == 4 {
        assert(48 <= s[1] as int <= 57);
        assert(s[1] != ("0:v?"@)[1]);
    }
    let t = s + "k"@;
    assert(t[t.len() - 1] == 'k');
    assert(("0:v?"@)[3] != 'k');
    assert(("-af"@)[2] != 'k');
    assert(("-threads"@)[7] != 'k');
    assert(("-b:a"@)[3] != 'k');
}

proof fn lemma_clear_args_not_telling(fields: Seq<Seq<char>>)
    ensures
        none_telling(clear_args(fields)),
    decreases fields.len(),
{
    if fields.len() > 0 {
        lemma_clear_args_not_telling(fields.drop_last());
        reveal_strlit("0:v?");
    reveal_strlit("-af");
    reveal_strlit("-threads");
    reveal_strlit("-b:a");
        reveal_strlit("-metadata");
        reveal_strlit("=");
        let f = fields.last() + "="@;
        assert(f[f.len() - 1] == '=');
        assert(!telling(f)) by {
            assert(("0:v?"@)[3] != '=');
            assert(("-af"@)[2] != '=');
            assert(("-threads"@)[7] != '=');
            assert(("-b:a"@)[3] != '=');
        }
        assert(!telling("-metadata"@)) by {
            assert("-metadata"@.len() == 9);
        }
        let init = clear_args(fields.drop_last());
        let all = clear_args(fields);
        assert(all == init.push("-metadata"@).push(f));
        assert forall|i: int| 0 <= i < all.len() implies !telling(#[trigger] all[i]) by {
            if i < init.len() {
                assert(all[i] == init[i]);
            }
        }
    }
}

proof fn lemma_metadata_args_not_telling(policy: MetadataPolicy, codec: Codec)
    ensures
        none_telling(spec_metadata_args(policy, codec)),
{
    reveal_strlit("0:v?");
    reveal_strlit("-af");
    reveal_strlit("-threads");
    reveal_strlit("-b:a");
    reveal_strlit("-map_metadata");
    reveal_strlit("0");
    reveal_strlit("-c:v");
    reveal_strlit("copy");
    reveal_strlit("-disposition:v");
    reveal_strlit("attached_pic");
    reveal_strlit("-metadata:s:v");
    reveal_strlit("title=Album cover");
    reveal_strlit("comment=Cover (front)");
    reveal_strlit("-write_id3v2");
    reveal_strlit("1");
    reveal_strlit("-id3v2_version");
    reveal_strlit("3");
    let fixed = seq!["-map_metadata"@, "0"@];
    assert(none_telling(fixed)) by {
        assert("-map_metadata"@.len() == 13);
        assert("0"@.len() == 1);
    }
    lemma_clear_args_not_telling(cleared(policy));
    lemma_none_telling_concat(fixed, clear_args(cleared(policy)));
    let art = artwork_args();
    assert(none_telling(art)) by {
        assert(("-c:v"@)[1] != ("0:v?"@)[1]);
        assert(("-c:v"@)[1] != ("-b:a"@)[1]);
        assert(("copy"@)[0] != ("0:v?"@)[0]);
        assert(("copy"@)[0] != ("-b:a"@)[0]);
        assert("-disposition:v"@.len() == 14);
        assert("attached_pic"@.len() == 12);
        assert("-metadata:s:v"@.len() == 13);
        assert("title=Album cover"@.len() == 17);
        assert("comment=Cover (front)"@.len() == 21);
    }
    let none: Seq<Seq<char>> = Seq::empty();
    assert(none_telling(none));
    let base = fixed + clear_args(cleared(policy)) + if policy.artwork == Artwork::Keep {
        art
    } else {
        none
    };
    lemma_none_telling_concat(fixed + clear_args(cleared(policy)), if policy.artwork
        == Artwork::Keep {
        art
    } else {
        none
    });
    let aiff = seq!["-write_id3v2"@, "1"@, "-id3v2_version"@, "3"@];
    assert(none_telling(aiff)) by {
        assert("-write_id3v2"@.len() == 12);
        assert("1"@.len() == 1);
        assert("-id3v2_version"@.len() == 14);
        assert("3"@.len() == 1);
    }
    let mp3 = seq!["-id3v2_version"@, "3"@];
    assert(none_telling(mp3)) by {
        assert("-id3v2_version"@.len() == 14);
        assert("3"@.len() == 1);
    }
    lemma_none_telling_concat(base, aiff);
    lemma_none_telling_concat(base, mp3);
}

proof fn lemma_encoder_name_not_telling(output: AudioSpec)
    ensures
        !telling(spec_encoder_name(output)),
{
    reveal_strlit("0:v?");
    reveal_strlit("-af");
    reveal_strlit("-threads");
    reveal_strlit("-b:a");
    reveal_strlit("libmp3lame");
    reveal_strlit("aac");
    reveal_strlit("alac");
    reveal_strlit("flac");
    reveal_strlit("pcm_s");
    reveal_strlit("le");
    reveal_strlit("be");
    assert("libmp3lame"@.len() == 10);
    assert(("aac"@)[0] != ("-af"@)[0]);
    assert(("alac"@)[0] != ("0:v?"@)[0]);
    assert(("alac"@)[0] != ("-b:a"@)[0]);
    assert(("flac"@)[0] != ("0:v?"@)[0]);
    assert(("flac"@)[0] != ("-b:a"@)[0]);
    let depth: nat = match output.bit_depth {
        Some(bits) => bits as nat,
        None => 16,
    };
    let le = "pcm_s"@ + spec_decimal(depth) + "le"@;
    let be = "pcm_s"@ + spec_decimal(depth) + "be"@;
    assert(le[0] == 'p');
    assert(be[0] == 'p');
    assert(!telling(le)) by {
        assert(le[0] != ("0:v?"@)[0]);
        assert(le[0] != ("-af"@)[0]);
        assert(le[0] != ("-threads"@)[0]);
        assert(le[0] != ("-b:a"@)[0]);
    }
    assert(!telling(be)) by {
        assert(be[0] != ("0:v?"@)[0]);
        assert(be[0] != ("-af"@)[0]);
        assert(be[0] != ("-threads"@)[0]);
        assert(be[0] != ("-b:a"@)[0]);
    }
}

proof fn lemma_lacks_parts(
    head: Seq<Seq<char>>,
    encoder: Seq<Seq<char>>,
    bitrate: Seq<Seq<char>>,
    rate: Seq<Seq<char>>,
    dither: Seq<Seq<char>>,
    meta: Seq<Seq<char>>,
    threads: Seq<Seq<char>>,
    progress: Seq<Seq<char>>,
    m: Seq<char>,
)
    requires
        lacks(head, m),
        lacks(encoder, m),
        lacks(bitrate, m),
        lacks(rate, m),
        lacks(dither, m),
        lacks(meta, m),
        lacks(threads, m),
        lacks(progress, m),
    ensures
        lacks(head + (encoder + bitrate + rate + dither) + meta + threads + progress, m),
{
    lemma_lacks_concat(encoder, bitrate, m);
    lemma_lacks_concat(encoder + bitrate, rate, m);
    lemma_lacks_concat(encoder + bitrate + rate, dither, m);
    lemma_lacks_concat(head, encoder + bitrate + rate + dither, m);
    lemma_lacks_concat(head + (encoder + bitrate + rate + dither), meta, m);
    lemma_lacks_concat(head + (encoder + bitrate + rate + dither) + meta, threads, m);
    lemma_lacks_concat(head + (encoder + bitrate + rate + dither) + meta + threads, progress, m);
}

/// The options for a plan open on its first audio stream and close on the
/// progress report. Between them, the artwork is mapped exactly when it is
/// kept, dither is asked for exactly when the plan dithers, an encode and only
/// an encode runs on one thread, and a bitrate is named exactly when an
/// encode has one.
pub proof fn the_options_say_what_the_plan_does(plan: Plan)
    ensures
        spec_encode_args(plan).len() >= 5,
        spec_encode_args(plan).take(2) == seq!["-map"@, "0:a:0"@],
        spec_encode_args(plan).skip(spec_encode_args(plan).len() - 3) == spec_progress_args(),
        has_pair(spec_encode_args(plan), "-map"@, "0:v?"@) <==> plan.metadata.artwork
            == Artwork::Keep,
        spec_encode_args(plan).contains("-af"@) <==> plan.action == (Action::Encode {
            dither: true,
        }),
        has_pair(spec_encode_args(plan), "-threads"@, "1"@) <==> plan.action != Action::Retag,
        spec_encode_args(plan).contains("-b:a"@) <==> (plan.action != Action::Retag
            && plan.output.bitrate_kbps is Some),
{
    reveal_strlit("0:v?");
    reveal_strlit("-af");
    reveal_strlit("-threads");
    reveal_strlit("-b:a");
    reveal_strlit("-map");
    reveal_strlit("0:a:0");
    reveal_strlit("-c:a");
    reveal_strlit("copy");
    reveal_strlit("-ar");
    reveal_strlit("aresample=dither_method=triangular_hp");
    reveal_strlit("1");
    reveal_strlit("-nostats");
    reveal_strlit("-progress");
    reveal_strlit("pipe:1");
    let a = spec_encode_args(plan);
    let head = spec_head_args(plan);
    let meta = spec_metadata_args(plan.metadata, plan.output.codec);
    let progress = spec_progress_args();
    let threads = seq!["-threads"@, "1"@];
    lemma_metadata_args_not_telling(plan.metadata, plan.output.codec);
    assert(none_telling(progress)) by {
        assert(("-nostats"@)[1] != ("-threads"@)[1]);
        assert("-progress"@.len() == 9);
        assert("pipe:1"@.len() == 6);
    }
    let opening = seq!["-map"@, "0:a:0"@];
    assert(none_telling(opening)) by {
        assert(("-map"@)[1] != ("-b:a"@)[1]);
        assert(("-map"@)[0] != ("0:v?"@)[0]);
        assert("0:a:0"@.len() == 5);
    }
    let cover: Seq<Seq<char>> = if plan.metadata.artwork == Artwork::Keep {
        seq!["-map"@, "0:v?"@]
    } else {
        Seq::empty()
    };
    let codec_flag = seq!["-c:a"@];
    assert(none_telling(codec_flag)) by {
        assert(("-c:a"@)[1] != ("-b:a"@)[1]);
        assert(("-c:a"@)[0] != ("0:v?"@)[0]);
    }
    assert(head == opening + cover + codec_flag);
    // The cover map carries no option but the artwork's.
    assert(lacks(cover, "-af"@) && lacks(cover, "-threads"@) && lacks(cover, "-b:a"@)) by {
        assert(("-map"@)[1] != ("-b:a"@)[1]);
        assert("0:v?"@.len() == 4);
        assert(("0:v?"@)[0] != ("-b:a"@)[0]);
    }
    lemma_none_telling_lacks(opening);
    lemma_none_telling_lacks(codec_flag);
    lemma_none_telling_lacks(meta);
    lemma_none_telling_lacks(progress);
    lemma_lacks_concat(opening, cover, "-af"@);
    lemma_lacks_concat(opening, cover, "-threads"@);
    lemma_lacks_concat(opening, cover, "-b:a"@);
    lemma_lacks_concat(opening + cover, codec_flag, "-af"@);
    lemma_lacks_concat(opening + cover, codec_flag, "-threads"@);
    lemma_lacks_concat(opening + cover, codec_flag, "-b:a"@);
    if plan.metadata.artwork != Artwork::Keep {
        assert(lacks(cover, "0:v?"@));
        lemma_lacks_concat(opening, cover, "0:v?"@);
        lemma_lacks_concat(opening + cover, codec_flag, "0:v?"@);
    }
    if plan.action == Action::Retag {
        let copy = seq!["copy"@];
        assert(none_telling(copy)) by {
            assert(("copy"@)[0] != ("0:v?"@)[0]);
            assert(("copy"@)[0] != ("-b:a"@)[0]);
        }
        lemma_none_telling_lacks(copy);
        assert(a == head + copy + meta + progress);
        lemma_lacks_concat(head, copy, "-af"@);
        lemma_lacks_concat(head + copy, meta, "-af"@);
        lemma_lacks_concat(head + copy + meta, progress, "-af"@);
        lemma_lacks_concat(head, copy, "-threads"@);
        lemma_lacks_concat(head + copy, meta, "-threads"@);
        lemma_lacks_concat(head + copy + meta, progress, "-threads"@);
        lemma_lacks_concat(head, copy, "-b:a"@);
        lemma_lacks_concat(head + copy, meta, "-b:a"@);
        lemma_lacks_concat(head + copy + meta, progress, "-b:a"@);
        if plan.metadata.artwork != Artwork::Keep {
            lemma_lacks_concat(head, copy, "0:v?"@);
            lemma_lacks_concat(head + copy, meta, "0:v?"@);
            lemma_lacks_concat(head + copy + meta, progress, "0:v?"@);
        }
    } else {
        let mid = spec_encoding_args(plan);
        assert(a == head + mid + meta + threads + progress);
        // The encoding part: the encoder, the bitrate, the rate and dither.
        lemma_encoder_name_not_telling(plan.output);
        lemma_decimal_not_telling(plan.output.sample_rate_hz as nat);
        let encoder = seq![spec_encoder_name(plan.output)];
        let bitrate: Seq<Seq<char>> = match plan.output.bitrate_kbps {
            Some(kbps) => seq!["-b:a"@, spec_decimal(kbps as nat) + "k"@],
            None => Seq::empty(),
        };
        let rate = seq!["-ar"@, spec_decimal(plan.output.sample_rate_hz as nat)];
        let dither: Seq<Seq<char>> = if plan.action == (Action::Encode { dither: true }) {
            seq!["-af"@, "aresample=dither_method=triangular_hp"@]
        } else {
            Seq::empty()
        };
        assert(mid == encoder + bitrate + rate + dither);
        assert(none_telling(encoder));
        assert(none_telling(rate)) by {
            assert(("-ar"@)[2] != ("-af"@)[2]);
        }
        if let Some(kbps) = plan.output.bitrate_kbps {
            lemma_decimal_not_telling(kbps as nat);
        }
        assert(lacks(bitrate, "0:v?"@) && lacks(bitrate, "-af"@) && lacks(bitrate, "-threads"@))
            by {
            assert(("-b:a"@)[0] != ("0:v?"@)[0]);
            assert("-b:a"@.len() == 4 && "-af"@.len() == 3 && "-threads"@.len() == 8);
        }
        assert(lacks(dither, "0:v?"@) && lacks(dither, "-b:a"@) && lacks(dither, "-threads"@)) by {
            assert("aresample=dither_method=triangular_hp"@.len() == 37);
            assert(("-af"@)[0] != ("0:v?"@)[0]);
            assert("-b:a"@.len() == 4 && "-af"@.len() == 3 && "-threads"@.len() == 8);
        }
        assert(lacks(threads, "0:v?"@) && lacks(threads, "-af"@) && lacks(threads, "-b:a"@)) by {
            assert("1"@.len() == 1);
            assert("-b:a"@.len() == 4 && "-af"@.len() == 3 && "-threads"@.len() == 8);
            assert("0:v?"@.len() == 4);
        }
        lemma_none_telling_lacks(rate);
        lemma_none_telling_lacks(encoder);
        if plan.metadata.artwork != Artwork::Keep {
            lemma_lacks_parts(head, encoder, bitrate, rate, dither, meta, threads, progress, "0:v?"@);
        }
        if plan.action != (Action::Encode { dither: true }) {
            assert(dither.len() == 0);
            lemma_lacks_parts(head, encoder, bitrate, rate, dither, meta, threads, progress, "-af"@);
        }
        if plan.output.bitrate_kbps is None {
            assert(bitrate.len() == 0);
            lemma_lacks_parts(head, encoder, bitrate, rate, dither, meta, threads, progress, "-b:a"@);
        }
        let k: int = (head.len() + mid.len() + meta.len()) as int;
        assert(a[k] == "-threads"@ && a[k + 1] == "1"@);
        if let Some(kbps) = plan.output.bitrate_kbps {
            assert(a[head.len() as int + 1] == "-b:a"@);
        }
        if plan.action == (Action::Encode { dither: true }) {
            let at: int = (head.len() + encoder.len() + bitrate.len() + rate.len()) as int;
            assert(a[at] == "-af"@);
        }
    }
    if plan.metadata.artwork == Artwork::Keep {
        assert(a[2] == "-map"@ && a[3] == "0:v?"@);
    }
    assert(a.take(2) =~= opening);
    assert(a.skip(a.len() - 3) =~= progress);
}


/// A depth ceiling never pads: a lossless output under a ceiling has the
/// source's word length or the ceiling, whichever is shorter, so it is never
/// longer than either and a source already under it keeps its own.
pub proof fn a_depth_ceiling_never_pads(source: AudioSpec, target: Target, cap: u8, depth: u8)
    requires
        !spec_is_lossy(target.codec),
        target.bit_depth == BitDepthPolicy::CapAt(cap),
        source.bit_depth == Some(depth),
    ensures
        spec_plan(source, target).output.bit_depth matches Some(bits) && bits <= depth && bits
            <= cap && (bits == depth || bits == cap),
        depth <= cap ==> spec_plan(source, target).output.bit_depth == Some(depth),
        cap < depth ==> spec_plan(source, target).output.bit_depth == Some(cap),
{
}

/// A lossless output's depth follows the policy and nothing else: kept,
/// fixed, or capped; a source that declares no depth gets none from a
/// ceiling or from keeping it.
pub proof fn a_lossless_depth_follows_the_policy(source: AudioSpec, target: Target)
    requires
        !spec_is_lossy(target.codec),
    ensures
        target.bit_depth == BitDepthPolicy::Preserve ==> spec_plan(source, target).output.bit_depth
            == source.bit_depth,
        forall|bits: u8|
            target.bit_depth == BitDepthPolicy::Fixed(bits) ==> spec_plan(
                source,
                target,
            ).output.bit_depth == Some(bits),
        source.bit_depth is None && !(target.bit_depth is Fixed) ==> spec_plan(
            source,
            target,
        ).output.bit_depth is None,
{
}

/// The artwork goes across as a sleeve, not as a video track: the picture
/// stream is marked as attached exactly when the artwork is kept.
pub proof fn kept_artwork_is_marked_as_a_sleeve(plan: Plan)
    ensures
        has_pair(spec_encode_args(plan), "-disposition:v"@, "attached_pic"@) <==> plan.metadata.artwork
            == Artwork::Keep,
        plan.metadata.artwork == Artwork::Keep ==> has_pair(
            spec_encode_args(plan),
            "-map"@,
            "0:v?"@,
        ) && has_pair(spec_encode_args(plan), "-c:v"@, "copy"@) && has_pair(
            spec_encode_args(plan),
            "-metadata:s:v"@,
            "title=Album cover"@,
        ) && has_pair(spec_encode_args(plan), "-metadata:s:v"@, "comment=Cover (front)"@),
{
    reveal_strlit("attached_pic");
    reveal_strlit("-disposition:v");
    reveal_strlit("-c:v");
    reveal_strlit("copy");
    the_options_say_what_the_plan_does(plan);
    let a = spec_encode_args(plan);
    let head = spec_head_args(plan);
    let meta = spec_metadata_args(plan.metadata, plan.output.codec);
    let base = seq!["-map_metadata"@, "0"@] + clear_args(cleared(plan.metadata));
    if plan.metadata.artwork == Artwork::Keep {
        // The artwork options follow the head and whatever precedes the
        // metadata, then the two fixed options and the cleared fields.
        let before: int = if plan.action == Action::Retag {
            (head.len() + 1) as int
        } else {
            (head.len() + spec_encoding_args(plan).len()) as int
        };
        assert(meta == base + artwork_args() + match plan.output.codec {
            Codec::PcmAiff => seq!["-write_id3v2"@, "1"@, "-id3v2_version"@, "3"@],
            Codec::Mp3 => seq!["-id3v2_version"@, "3"@],
            _ => Seq::<Seq<char>>::empty(),
        });
        let at = before + base.len();
        if plan.action == Action::Retag {
            assert(a == head + seq!["copy"@] + meta + spec_progress_args());
            assert(a[at] == meta[base.len() as int]);
        } else {
            assert(a == head + spec_encoding_args(plan) + meta + seq!["-threads"@, "1"@]
                + spec_progress_args());
            assert(a[at] == meta[base.len() as int]);
        }
        assert(a[at] == "-c:v"@ && a[at + 1] == "copy"@);
        assert(a[at + 2] == "-disposition:v"@ && a[at + 3] == "attached_pic"@);
        assert(a[at + 4] == "-metadata:s:v"@ && a[at + 5] == "title=Album cover"@);
        assert(a[at + 6] == "-metadata:s:v"@ && a[at + 7] == "comment=Cover (front)"@);
    } else {
        lemma_no_sleeve(plan);
    }
}

/// Nothing but the artwork options names an attached picture.
spec fn no_sleeve(args: Seq<Seq<char>>) -> bool {
    forall|i: int| 0 <= i < args.len() ==> args[i] != "attached_pic"@
}

proof fn lemma_clear_args_no_sleeve(fields: Seq<Seq<char>>)
    ensures
        no_sleeve(clear_args(fields)),
    decreases fields.len(),
{
    if fields.len() > 0 {
        lemma_clear_args_no_sleeve(fields.drop_last());
        reveal_strlit("attached_pic");
        reveal_strlit("-metadata");
        reveal_strlit("=");
        let f = fields.last() + "="@;
        assert(f[f.len() - 1] == '=');
        assert(f != "attached_pic"@) by {
            assert(("attached_pic"@)[11] != '=');
        }
        assert("-metadata"@ != "attached_pic"@) by {
            assert("-metadata"@.len() == 9);
        }
        let init = clear_args(fields.drop_last());
        let all = clear_args(fields);
        assert(all == init.push("-metadata"@).push(f));
        assert forall|i: int| 0 <= i < all.len() implies all[i] != "attached_pic"@ by {
            if i < init.len() {
                assert(all[i] == init[i]);
            }
        }
    }
}

proof fn lemma_decimal_no_sleeve(n: nat)
    ensures
        spec_decimal(n) != "attached_pic"@,
        spec_decimal(n) + "k"@ != "attached_pic"@,
{
    reveal_strlit("attached_pic");
    reveal_strlit("k");
    lemma_decimal_digits(n);
    assert(48 <= spec_decimal(n)[0] as int <= 57);
    assert((spec_decimal(n) + "k"@)[0] == spec_decimal(n)[0]);
    assert(("attached_pic"@)[0] == 'a');
}

proof fn lemma_no_sleeve(plan: Plan)
    requires
        plan.metadata.artwork != Artwork::Keep,
    ensures
        !has_pair(spec_encode_args(plan), "-disposition:v"@, "attached_pic"@),
{
    reveal_strlit("attached_pic");
    reveal_strlit("-map");
    reveal_strlit("0:a:0");
    reveal_strlit("-c:a");
    reveal_strlit("copy");
    reveal_strlit("-ar");
    reveal_strlit("-b:a");
    reveal_strlit("-af");
    reveal_strlit("aresample=dither_method=triangular_hp");
    reveal_strlit("-threads");
    reveal_strlit("1");
    reveal_strlit("-nostats");
    reveal_strlit("-progress");
    reveal_strlit("pipe:1");
    reveal_strlit("-map_metadata");
    reveal_strlit("0");
    reveal_strlit("-write_id3v2");
    reveal_strlit("-id3v2_version");
    reveal_strlit("3");
    reveal_strlit("libmp3lame");
    reveal_strlit("aac");
    reveal_strlit("alac");
    reveal_strlit("flac");
    reveal_strlit("pcm_s");
    let m = "attached_pic"@;
    assert(m[0] == 'a' && m.len() == 12);
    let a = spec_encode_args(plan);
    lemma_clear_args_no_sleeve(cleared(plan.metadata));
    lemma_decimal_no_sleeve(plan.output.sample_rate_hz as nat);
    if let Some(kbps) = plan.output.bitrate_kbps {
        lemma_decimal_no_sleeve(kbps as nat);
    }
    let depth: nat = match plan.output.bit_depth {
        Some(bits) => bits as nat,
        None => 16,
    };
    let pcm_le = "pcm_s"@ + spec_decimal(depth) + "le"@;
    let pcm_be = "pcm_s"@ + spec_decimal(depth) + "be"@;
    assert(pcm_le[0] == 'p' && pcm_be[0] == 'p');
    assert(spec_encoder_name(plan.output) != m) by {
        assert(("aac"@).len() == 3);
        assert(("alac"@)[1] != m[1]);
        assert(("libmp3lame"@)[0] != m[0]);
        assert(("flac"@)[0] != m[0]);
    }
    assert(("-map"@)[0] != m[0] && ("0:a:0"@)[0] != m[0] && ("-c:a"@)[0] != m[0]);
    assert(("copy"@)[0] != m[0] && ("-ar"@)[0] != m[0] && ("-b:a"@)[0] != m[0]);
    assert(("-af"@)[0] != m[0] && ("-threads"@)[0] != m[0] && ("1"@)[0] != m[0]);
    assert(("aresample=dither_method=triangular_hp"@)[1] != m[1]);
    assert(("-nostats"@)[0] != m[0] && ("-progress"@)[0] != m[0] && ("pipe:1"@)[0] != m[0]);
    assert(("-map_metadata"@)[0] != m[0] && ("0"@)[0] != m[0] && ("3"@)[0] != m[0]);
    assert(("-write_id3v2"@)[0] != m[0] && ("-id3v2_version"@)[0] != m[0]);
    assert forall|i: int| 0 <= i < a.len() implies a[i] != m by {
        let head = spec_head_args(plan);
        let meta = spec_metadata_args(plan.metadata, plan.output.codec);
        let base = seq!["-map_metadata"@, "0"@] + clear_args(cleared(plan.metadata));
        assert(head =~= seq!["-map"@, "0:a:0"@, "-c:a"@]);
        assert(no_sleeve(meta)) by {
            let cl = clear_args(cleared(plan.metadata));
            assert forall|j: int| 0 <= j < meta.len() implies meta[j] != m by {
                if j >= 2 && j < 2 + cl.len() {
                    assert(meta[j] == cl[j - 2]);
                }
            }
        }
        if plan.action == Action::Retag {
            let p = head + seq!["copy"@] + meta + spec_progress_args();
            assert(a == p);
            if i >= 4 && i < 4 + meta.len() {
                assert(a[i] == meta[i - 4]);
            }
        } else {
            let mid = spec_encoding_args(plan);
            assert(a == head + mid + meta + seq!["-threads"@, "1"@] + spec_progress_args());
            if i >= 3 && i < 3 + mid.len() {
                assert(a[i] == mid[i - 3]);
            }
            if i >= 3 + mid.len() && i < 3 + mid.len() + meta.len() {
                assert(a[i] == meta[i - 3 - mid.len()]);
            }
        }
    }
}


/// What a plan produces follows the target: its codec; the rate kept, fixed
/// or capped; no word length for a lossy output and no bitrate for a
/// lossless one; and for a lossy output the target's bitrate, held down to
/// what a lossy source arrived with.
pub proof fn the_output_follows_the_target(source: AudioSpec, target: Target)
    ensures
        spec_plan(source, target).output.codec == target.codec,
        target.sample_rate == SampleRatePolicy::Preserve ==> spec_plan(source, target).output.sample_rate_hz
            == source.sample_rate_hz,
        target.sample_rate is Fixed ==> spec_plan(source, target).output.sample_rate_hz
            == target.sample_rate->Fixed_0,
        spec_is_lossy(target.codec) ==> spec_plan(source, target).output.bit_depth is None,
        !spec_is_lossy(target.codec) ==> spec_plan(source, target).output.bitrate_kbps is None,
        spec_is_lossy(target.codec) && target.bitrate_kbps is None ==> spec_plan(
            source,
            target,
        ).output.bitrate_kbps is None,
        spec_is_lossy(target.codec) && target.bitrate_kbps is Some && !(spec_is_lossy(source.codec)
            && source.bitrate_kbps is Some) ==> spec_plan(source, target).output.bitrate_kbps
            == target.bitrate_kbps,
        spec_is_lossy(target.codec) && spec_is_lossy(source.codec) && target.bitrate_kbps is Some
            && source.bitrate_kbps is Some ==> ({
            let wanted = target.bitrate_kbps->0;
            let arrived = source.bitrate_kbps->0;
            spec_plan(source, target).output.bitrate_kbps == Some(
                if wanted <= arrived {
                    wanted
                } else {
                    arrived
                },
            )
        }),
{
}

} // verus!

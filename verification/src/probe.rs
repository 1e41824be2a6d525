//! Reading what a file actually contains, as opposed to what it is named.
//!
//! ffprobe is run elsewhere and its JSON read into a [`ProbeOutput`]; this
//! module decides what that report means.

use vstd::prelude::*;

use crate::compat::AudioSpec;
use crate::device::Codec;
use crate::plan::spec_is_lossy;
use crate::text::{lemma_split_on_concat, push_char, split_on, str_eq};

verus! {

/// Why a file could not be read.
#[derive(Debug, Clone, PartialEq, Eq)]
pub enum ProbeError {
    /// ffprobe could not be started.
    NotRunnable { reason: String },
    /// ffprobe ran and refused the file.
    Rejected { stderr: String },
    /// ffprobe's output was not the JSON asked for.
    Malformed(String),
    NoAudioStream,
    UnsupportedCodec(String),
    UnreadableField { field: &'static str, value: String },
}

/// The invocation this module knows how to read. ffprobe reports only what
/// it is asked for, so this list and the fields read below stay in step.
pub const PROBE_ARGS: [&'static str; 8] = [
    "-v",
    "error",
    "-select_streams",
    "a:0",
    "-show_entries",
    "format=format_name:stream=codec_name,profile,sample_rate,bits_per_raw_sample,bits_per_sample,bit_rate",
    "-print_format",
    "json",
];

/// One stream as ffprobe describes it.
#[derive(Debug, Clone, PartialEq, Eq)]
pub struct ProbeStream {
    pub codec_name: String,
    /// Present for codecs that have profiles: among these, AAC alone.
    pub profile: Option<String>,
    /// Reported as a string, not a number.
    pub sample_rate: String,
    /// The only field that tells the truth about a declared depth.
    pub bits_per_raw_sample: Option<String>,
    /// Zero for every compressed codec, lossless ones included.
    pub bits_per_sample: Option<u8>,
    /// Bits per second.
    pub bit_rate: Option<String>,
}

/// The subset of `ffprobe -print_format json` that says what a stream is.
#[derive(Debug, Clone, PartialEq, Eq)]
pub struct ProbeOutput {
    pub streams: Vec<ProbeStream>,
    /// One name for most containers, a comma-separated list for the MP4
    /// family.
    pub format_name: String,
}

// ---------------------------------------------------------------------------
// Unsigned decimal numbers, as `str::parse` reads them.
// ---------------------------------------------------------------------------

pub open spec fn is_digit(c: char) -> bool {
    '0' <= c && c <= '9'
}

pub open spec fn digit_value(c: char) -> int {
    c as int - 48
}

/// Every character is an ASCII digit, and there is at least one.
pub open spec fn all_digits(s: Seq<char>) -> bool {
    s.len() > 0 && forall|i: int| 0 <= i < s.len() ==> is_digit(#[trigger] s[i])
}

/// The number a run of digits spells.
pub open spec fn digits_value(s: Seq<char>) -> int
    decreases s.len(),
{
    if s.len() == 0 {
        0
    } else {
        digits_value(s.drop_last()) * 10 + digit_value(s.last())
    }
}

/// What `str::parse` makes of `s` for an unsigned type whose largest value is
/// `max`: an optional `+`, then one or more ASCII digits, in range.
pub open spec fn spec_parse_unsigned(s: Seq<char>, max: int) -> Option<int> {
    let body = if s.len() > 0 && s[0] == '+' {
        s.drop_first()
    } else {
        s
    };
    if all_digits(body) && digits_value(body) <= max {
        Some(digits_value(body))
    } else {
        None
    }
}

proof fn lemma_digits_value_grows(s: Seq<char>, i: int)
    requires
        0 <= i <= s.len(),
        forall|k: int| 0 <= k < s.len() ==> is_digit(#[trigger] s[k]),
    ensures
        digits_value(s.take(i)) <= digits_value(s),
        0 <= digits_value(s.take(i)),
    decreases s.len() - i,
{
    if i == s.len() {
        assert(s.take(i) =~= s);
        lemma_digits_value_nonneg(s);
    } else {
        lemma_digits_value_grows(s, i + 1);
        assert(s.take(i + 1).drop_last() =~= s.take(i));
        assert(is_digit(s.take(i + 1).last()));
        lemma_digits_value_nonneg(s.take(i));
    }
}

proof fn lemma_digits_value_nonneg(s: Seq<char>)
    requires
        forall|k: int| 0 <= k < s.len() ==> is_digit(#[trigger] s[k]),
    ensures
        0 <= digits_value(s),
    decreases s.len(),
{
    if s.len() > 0 {
        assert(is_digit(s.last()));
        lemma_digits_value_nonneg(s.drop_last());
    }
}

/// `s` read as an unsigned number no greater than `max`.
pub fn parse_unsigned(s: &str, max: u64) -> (value: Option<u64>)
    ensures
        value matches Some(v) ==> spec_parse_unsigned(s@, max as int) == Some(v as int),
        value is None ==> spec_parse_unsigned(s@, max as int) is None,
{
    let n = s.unicode_len();
    let ghost whole = s@;
    let mut start: usize = 0;
    if n > 0 && s.get_char(0) == '+' {
        start = 1;
    }
    let ghost body = if whole.len() > 0 && whole[0] == '+' {
        whole.drop_first()
    } else {
        whole
    };
    assert(body =~= whole.skip(start as int));
    if start == n {
        return None;
    }
    let mut value: u64 = 0;
    let mut i: usize = start;
    while i < n
        invariant
            n == whole.len(),
            whole == s@,
            body == whole.skip(start as int),
            body == (if whole.len() > 0 && whole[0] == '+' {
                whole.drop_first()
            } else {
                whole
            }),
            start <= i <= n,
            start < n,
            value <= max,
            forall|k: int| start <= k < i ==> is_digit(#[trigger] whole[k]),
            value == digits_value(body.take(i - start)),
        decreases n - i,
    {
        let c = s.get_char(i);
        if !('0' <= c && c <= '9') {
            assert(body[i - start] == c);
            assert(!is_digit(body[i - start]));
            return None;
        }
        let d = (c as u32 - 48) as u64;
        proof {
            let j = i - start;
            assert(body.take(j + 1).drop_last() =~= body.take(j));
            assert(body.take(j + 1).last() == c);
        }
        let next: u128 = value as u128 * 10 + d as u128;
        assert(next == digits_value(body.take(i - start + 1)));
        if next > max as u128 {
            proof {
                let j = (i - start + 1) as int;
                if all_digits(body) {
                    lemma_digits_value_grows(body, j);
                }
            }
            return None;
        }
        value = next as u64;
        i += 1;
    }
    proof {
        assert(body.take((n - start) as int) =~= body);
    }
    Some(value)
}

// ---------------------------------------------------------------------------
// Which codec a stream is.
// ---------------------------------------------------------------------------

/// The first container name in the list that settles PCM: WAV or AIFF.
pub open spec fn first_container(names: Seq<Seq<char>>) -> Option<Codec>
    decreases names.len(),
{
    if names.len() == 0 {
        None
    } else if names[0] == "wav"@ {
        Some(Codec::PcmWav)
    } else if names[0] == "aiff"@ {
        Some(Codec::PcmAiff)
    } else {
        first_container(names.drop_first())
    }
}

proof fn lemma_first_container_append(a: Seq<Seq<char>>, b: Seq<Seq<char>>)
    ensures
        first_container(a + b) == match first_container(a) {
            Some(codec) => Some(codec),
            None => first_container(b),
        },
    decreases a.len(),
{
    if a.len() > 0 {
        assert((a + b).drop_first() =~= a.drop_first() + b);
        lemma_first_container_append(a.drop_first(), b);
    } else {
        assert(a + b =~= b);
    }
}

/// The codec named `pcm_…`.
pub open spec fn names_pcm(name: Seq<char>) -> bool {
    name.len() >= 4 && name.subrange(0, 4) == "pcm_"@
}

/// The codec a stream holds. PCM carries no hint of its container, so the
/// container settles it; only AAC Low Complexity counts as AAC, and a stream
/// whose profile is not reported is not taken as it.
pub open spec fn spec_classify(name: Seq<char>, profile: Option<Seq<char>>, format: Seq<char>) -> Option<Codec> {
    if name == "mp3"@ {
        Some(Codec::Mp3)
    } else if name == "aac"@ {
        if profile == Some("LC"@) {
            Some(Codec::AacLc)
        } else {
            None
        }
    } else if name == "alac"@ {
        Some(Codec::Alac)
    } else if name == "flac"@ {
        Some(Codec::Flac)
    } else if names_pcm(name) {
        first_container(split_on(format, ','))
    } else {
        None
    }
}

fn container_codec(name: &str) -> (codec: Option<Codec>)
    ensures
        codec == first_container(seq![name@]),
{
    proof {
        reveal_with_fuel(first_container, 2);
    }
    if str_eq(name, "wav") {
        Some(Codec::PcmWav)
    } else if str_eq(name, "aiff") {
        Some(Codec::PcmAiff)
    } else {
        None
    }
}

/// The first of the comma-separated containers that is WAV or AIFF.
fn pcm_container(format: &str) -> (codec: Option<Codec>)
    ensures
        codec == first_container(split_on(format@, ',')),
{
    let n = format.unicode_len();
    let ghost whole = format@;
    let mut current = String::new();
    let ghost mut done: Seq<Seq<char>> = Seq::empty();
    let mut i: usize = 0;
    assert(whole.take(0) =~= Seq::<char>::empty());
    while i < n
        invariant
            n == whole.len(),
            whole == format@,
            i <= n,
            split_on(whole.take(i as int), ',') == done.push(current@),
            first_container(done) is None,
        decreases n - i,
    {
        let c = format.get_char(i);
        proof {
            assert(whole.take(i + 1).drop_last() =~= whole.take(i as int));
            assert(whole.take(i + 1).last() == c);
        }
        if c == ',' {
            let found = container_codec(current.as_str());
            proof {
                lemma_first_container_append(done, seq![current@]);
                assert(done.push(current@) =~= done + seq![current@]);
            }
            if found.is_some() {
                proof {
                    let rest = whole.skip(i + 1);
                    assert(whole =~= whole.take(i as int).push(',') + rest);
                    lemma_split_on_concat(whole.take(i as int), ',', rest);
                    lemma_first_container_append(done.push(current@), split_on(rest, ','));
                }
                return found;
            }
            proof {
                done = done.push(current@);
            }
            current = String::new();
            assert(split_on(whole.take(i + 1), ',') =~= done.push(current@));
        } else {
            let ghost before = current@;
            push_char(&mut current, c);
            assert(split_on(whole.take(i + 1), ',') =~= done.push(current@));
        }
        i += 1;
    }
    assert(whole.take(n as int) =~= whole);
    proof {
        lemma_first_container_append(done, seq![current@]);
        assert(done.push(current@) =~= done + seq![current@]);
    }
    container_codec(current.as_str())
}


fn names_pcm_exec(name: &str) -> (pcm: bool)
    ensures
        pcm == names_pcm(name@),
{
    proof {
        reveal_strlit("pcm_");
    }
    if name.unicode_len() < 4 {
        return false;
    }
    str_eq(name.substring_char(0, 4), "pcm_")
}

/// The codec a stream holds; see [`spec_classify`].
pub fn classify(codec_name: &str, profile: Option<&str>, format_name: &str) -> (codec: Option<Codec>)
    ensures
        codec == spec_classify(
            codec_name@,
            match profile {
                Some(p) => Some(p@),
                None => None,
            },
            format_name@,
        ),
{
    if str_eq(codec_name, "mp3") {
        Some(Codec::Mp3)
    } else if str_eq(codec_name, "aac") {
        match profile {
            Some(p) => if str_eq(p, "LC") {
                Some(Codec::AacLc)
            } else {
                None
            },
            None => None,
        }
    } else if str_eq(codec_name, "alac") {
        Some(Codec::Alac)
    } else if str_eq(codec_name, "flac") {
        Some(Codec::Flac)
    } else if names_pcm_exec(codec_name) {
        pcm_container(format_name)
    } else {
        None
    }
}

/// What to call a stream nothing here can handle: the codec, and for a
/// stream with a profile the profile beside it, since for AAC the name alone
/// would read as a contradiction.
pub open spec fn spec_name_for_error(stream: ProbeStream) -> Seq<char> {
    match stream.profile {
        Some(profile) => stream.codec_name@ + " ("@ + profile@ + ")"@,
        None => stream.codec_name@,
    }
}

pub fn name_for_error(stream: &ProbeStream) -> (name: String)
    ensures
        name@ == spec_name_for_error(*stream),
{
    let mut name = stream.codec_name.as_str().to_owned();
    match &stream.profile {
        Some(profile) => {
            name.append(" (");
            name.append(profile.as_str());
            name.append(")");
        },
        None => {},
    }
    name
}

/// The depth a stream declares: `bits_per_raw_sample` where it reads as a
/// number, otherwise a non-zero `bits_per_sample`.
pub open spec fn spec_bit_depth(stream: ProbeStream) -> Option<u8> {
    let raw = match stream.bits_per_raw_sample {
        Some(text) => spec_parse_unsigned(text@, 255),
        None => None,
    };
    match raw {
        Some(bits) => Some(bits as u8),
        None => match stream.bits_per_sample {
            Some(bits) => if bits > 0 {
                Some(bits)
            } else {
                None
            },
            None => None,
        },
    }
}

/// The bitrate in kbps, for a lossy codec only, saturating at `u16::MAX`.
pub open spec fn spec_bitrate(stream: ProbeStream, codec: Codec) -> Option<u16> {
    if !spec_is_lossy(codec) {
        None
    } else {
        match stream.bit_rate {
            Some(text) => match spec_parse_unsigned(text@, u32::MAX as int) {
                Some(bps) => Some(
                    if bps / 1000 <= u16::MAX {
                        (bps / 1000) as u16
                    } else {
                        u16::MAX
                    },
                ),
                None => None,
            },
            None => None,
        }
    }
}

fn bit_depth_of(stream: &ProbeStream) -> (bits: Option<u8>)
    ensures
        bits == spec_bit_depth(*stream),
{
    let raw = match &stream.bits_per_raw_sample {
        Some(text) => parse_unsigned(text.as_str(), 255),
        None => None,
    };
    match raw {
        Some(bits) => Some(bits as u8),
        None => match stream.bits_per_sample {
            Some(bits) => if bits > 0 {
                Some(bits)
            } else {
                None
            },
            None => None,
        },
    }
}

fn bitrate_of(stream: &ProbeStream, codec: Codec) -> (kbps: Option<u16>)
    ensures
        kbps == spec_bitrate(*stream, codec),
{
    if !crate::plan::is_lossy(codec) {
        return None;
    }
    match &stream.bit_rate {
        Some(text) => match parse_unsigned(text.as_str(), 0xffff_ffff) {
            Some(bps) => {
                let k = bps / 1000;
                Some(
                    if k <= 0xffff {
                        k as u16
                    } else {
                        0xffff
                    },
                )
            },
            None => None,
        },
        None => None,
    }
}

/// Turn ffprobe's report into the shape the compatibility checks take.
///
/// The first stream is the one read. It fails when there is no stream, when
/// the codec is not one handled here (naming it, with its profile), and when
/// the sampling rate is not a number.
pub fn interpret(output: &ProbeOutput) -> (spec: Result<AudioSpec, ProbeError>)
    ensures
        spec matches Ok(s) ==> (!spec_is_lossy(s.codec) ==> s.bitrate_kbps is None),
        output.streams@.len() == 0 ==> spec matches Err(ProbeError::NoAudioStream),
        output.streams@.len() > 0 ==> {
            let stream = output.streams@[0];
            let codec = spec_classify(
                stream.codec_name@,
                match stream.profile {
                    Some(p) => Some(p@),
                    None => None,
                },
                output.format_name@,
            );
            let rate = spec_parse_unsigned(stream.sample_rate@, u32::MAX as int);
            if codec is None {
                spec matches Err(ProbeError::UnsupportedCodec(name)) && name@
                    == spec_name_for_error(stream)
            } else if rate is None {
                spec matches Err(ProbeError::UnreadableField { field, value }) && field@
                    == "sample_rate"@ && value@ == stream.sample_rate@
            } else {
                spec == Ok::<AudioSpec, ProbeError>(
                    AudioSpec {
                        codec: codec->0,
                        sample_rate_hz: rate->0 as u32,
                        bit_depth: spec_bit_depth(stream),
                        bitrate_kbps: spec_bitrate(stream, codec->0),
                    },
                )
            }
        },
{
    if output.streams.len() == 0 {
        return Err(ProbeError::NoAudioStream);
    }
    let stream = &output.streams[0];
    let profile: Option<&str> = match &stream.profile {
        Some(p) => Some(p.as_str()),
        None => None,
    };
    let codec = match classify(stream.codec_name.as_str(), profile, output.format_name.as_str()) {
        Some(codec) => codec,
        None => return Err(ProbeError::UnsupportedCodec(name_for_error(stream))),
    };
    let sample_rate_hz = match parse_unsigned(stream.sample_rate.as_str(), 0xffff_ffff) {
        Some(hz) => hz as u32,
        None => {
            return Err(
                ProbeError::UnreadableField {
                    field: "sample_rate",
                    value: stream.sample_rate.as_str().to_owned(),
                },
            )
        },
    };
    Ok(
        AudioSpec {
            codec,
            sample_rate_hz,
            bit_depth: bit_depth_of(stream),
            bitrate_kbps: bitrate_of(stream, codec),
        },
    )
}


/// What a [`ProbeError`] says, as one would read it.
pub open spec fn spec_probe_message(error: ProbeError) -> Seq<char> {
    match error {
        ProbeError::NotRunnable { reason } => "could not run ffprobe: "@ + reason@,
        ProbeError::Rejected { stderr } => "ffprobe could not read the file: "@ + stderr@,
        ProbeError::Malformed(detail) => "ffprobe did not return valid JSON: "@ + detail@,
        ProbeError::NoAudioStream => "the file contains no audio stream"@,
        ProbeError::UnsupportedCodec(codec) => "unsupported codec: "@ + codec@,
        ProbeError::UnreadableField { field, value } => "ffprobe reported an unreadable "@ + field@
            + ": "@ + value@,
    }
}

impl ProbeError {
    /// The error as one line of text.
    pub fn message(&self) -> (text: String)
        ensures
            text@ == spec_probe_message(*self),
    {
        let mut text = String::new();
        match self {
            ProbeError::NotRunnable { reason } => {
                text.append("could not run ffprobe: ");
                text.append(reason.as_str());
            },
            ProbeError::Rejected { stderr } => {
                text.append("ffprobe could not read the file: ");
                text.append(stderr.as_str());
            },
            ProbeError::Malformed(detail) => {
                text.append("ffprobe did not return valid JSON: ");
                text.append(detail.as_str());
            },
            ProbeError::NoAudioStream => {
                text.append("the file contains no audio stream");
            },
            ProbeError::UnsupportedCodec(codec) => {
                text.append("unsupported codec: ");
                text.append(codec.as_str());
            },
            ProbeError::UnreadableField { field, value } => {
                text.append("ffprobe reported an unreadable ");
                text.append(field);
                text.append(": ");
                text.append(value.as_str());
            },
        }
        proof {
            assert(Seq::<char>::empty() + "the file contains no audio stream"@ =~= "the file contains no audio stream"@);
        }
        text
    }
}


/// What a tool's failure is reported as: what it said on stderr, trimmed,
/// or when it said nothing, how it exited.
pub open spec fn spec_why_it_failed(stderr: Seq<char>, status: Seq<char>) -> Seq<char> {
    let said = crate::text::trimmed(stderr);
    if said.len() == 0 {
        "it wrote nothing and exited with "@ + status
    } else {
        said
    }
}

/// Why a tool failed, given what it wrote to stderr and its exit status as
/// text.
pub fn why_it_failed(stderr: &str, status: &str) -> (why: String)
    ensures
        why@ == spec_why_it_failed(stderr@, status@),
{
    let said = crate::text::trim(stderr);
    if said.unicode_len() == 0 {
        let mut text = "it wrote nothing and exited with ".to_owned();
        text.append(status);
        text
    } else {
        said
    }
}


/// A bitrate belongs to lossy audio: a stream read as lossless carries none,
/// whatever rate ffprobe reports for it, so it can match a lossless target.
pub proof fn a_lossless_stream_reads_without_a_bitrate(stream: ProbeStream, codec: Codec)
    requires
        !spec_is_lossy(codec),
    ensures
        spec_bitrate(stream, codec) is None,
{
}


/// A lossy stream's bitrate is what ffprobe reports in bits per second, in
/// whole kilobits, held at the largest that fits; it has none where ffprobe
/// gives none or gives something that is not a number.
pub proof fn a_lossy_stream_reads_its_bitrate_in_kilobits(stream: ProbeStream, codec: Codec)
    requires
        spec_is_lossy(codec),
    ensures
        ({
            let bps = match stream.bit_rate {
                Some(text) => spec_parse_unsigned(text@, u32::MAX as int),
                None => None,
            };
            &&& bps is None ==> spec_bitrate(stream, codec) is None
            &&& bps matches Some(b) ==> spec_bitrate(stream, codec) matches Some(k) && (if b
                < 65_536_000 {
                k * 1000 <= b < k * 1000 + 1000
            } else {
                k == 65535
            })
        }),
{
    if let Some(text) = stream.bit_rate {
        let t = text@;
        let body = if t.len() > 0 && t[0] == '+' {
            t.drop_first()
        } else {
            t
        };
        if let Some(b) = spec_parse_unsigned(t, u32::MAX as int) {
            lemma_digits_value_nonneg(body);
            assert(b >= 0);
            if b < 65_536_000 {
                assert(b / 1000 <= 65535);
                assert((b / 1000) * 1000 <= b < (b / 1000) * 1000 + 1000) by (nonlinear_arith)
                    requires
                        b >= 0,
                ;
            } else {
                assert(b / 1000 > 65535);
            }
        }
    }
}

} // verus!

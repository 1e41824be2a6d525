//! Checking a planned output against what a player can accept.

use vstd::prelude::*;

use crate::device::{Codec, DeviceProfile, FormatSupport, rows_for};

verus! {

/// The shape of an audio stream: either one read off an existing file or one
/// a conversion is about to produce. Both are checked the same way.
#[derive(Debug, Clone, Copy, PartialEq, Eq, Structural)]
pub struct AudioSpec {
    pub codec: Codec,
    pub sample_rate_hz: u32,
    /// `None` for lossy codecs, which every player lists as 16-bit only.
    pub bit_depth: Option<u8>,
    /// `None` for lossless codecs.
    pub bitrate_kbps: Option<u16>,
}

/// A reason one player will not play the planned output.
#[derive(Debug, Clone, Copy, PartialEq, Eq)]
pub enum Issue {
    /// The player's format table has no row for this codec.
    CodecUnsupported { codec: Codec },
    /// The codec is playable, but not at this sampling frequency.
    SampleRateUnsupported { codec: Codec, requested_hz: u32 },
    /// The codec is playable, but not at this bit depth.
    BitDepthUnsupported { codec: Codec, requested_bits: u8 },
    BitrateOutOfRange { codec: Codec, requested_kbps: u16, allowed_kbps: (u16, u16) },
}

/// Some row lists this sampling rate.
pub open spec fn rate_admitted(rows: Seq<FormatSupport>, hz: u32) -> bool {
    exists|i: int| 0 <= i < rows.len() && (#[trigger] rows[i]).sample_rates_hz@.contains(hz)
}

/// Some row lists this bit depth.
pub open spec fn depth_admitted(rows: Seq<FormatSupport>, bits: u8) -> bool {
    exists|i: int| 0 <= i < rows.len() && (#[trigger] rows[i]).bit_depths@.contains(bits)
}

/// The bitrate ranges of the lossy rows, in row order.
pub open spec fn bitrate_ranges(rows: Seq<FormatSupport>) -> Seq<(u16, u16)>
    decreases rows.len(),
{
    if rows.len() == 0 {
        Seq::empty()
    } else {
        let earlier = bitrate_ranges(rows.drop_last());
        match rows.last().lossy {
            Some(limits) => earlier.push(limits.bitrate_kbps),
            None => earlier,
        }
    }
}

/// Some range holds this bitrate.
pub open spec fn kbps_admitted(ranges: Seq<(u16, u16)>, kbps: u16) -> bool {
    exists|i: int| 0 <= i < ranges.len() && (#[trigger] ranges[i]).0 <= kbps <= ranges[i].1
}

pub open spec fn min_u16(a: u16, b: u16) -> u16 {
    if a <= b {
        a
    } else {
        b
    }
}

pub open spec fn max_u16(a: u16, b: u16) -> u16 {
    if a >= b {
        a
    } else {
        b
    }
}

/// The lowest minimum and the highest maximum over `ranges`, starting from
/// `(u16::MAX, 0)`.
pub open spec fn span(ranges: Seq<(u16, u16)>) -> (u16, u16)
    decreases ranges.len(),
{
    if ranges.len() == 0 {
        (u16::MAX, 0u16)
    } else {
        let (lo, hi) = span(ranges.drop_last());
        (min_u16(lo, ranges.last().0), max_u16(hi, ranges.last().1))
    }
}

/// The issues raised against `rows`, the format rows a player lists for the
/// spec's codec.
pub open spec fn issues_for(spec: AudioSpec, rows: Seq<FormatSupport>) -> Seq<Issue> {
    if rows.len() == 0 {
        seq![Issue::CodecUnsupported { codec: spec.codec }]
    } else {
        let rate: Seq<Issue> = if rate_admitted(rows, spec.sample_rate_hz) {
            Seq::empty()
        } else {
            seq![
                Issue::SampleRateUnsupported {
                    codec: spec.codec,
                    requested_hz: spec.sample_rate_hz,
                },
            ]
        };
        let depth: Seq<Issue> = match spec.bit_depth {
            Some(bits) => if depth_admitted(rows, bits) {
                Seq::empty()
            } else {
                seq![Issue::BitDepthUnsupported { codec: spec.codec, requested_bits: bits }]
            },
            None => Seq::empty(),
        };
        let bitrate: Seq<Issue> = match spec.bitrate_kbps {
            Some(kbps) => {
                let ranges = bitrate_ranges(rows);
                if ranges.len() != 0 && !kbps_admitted(ranges, kbps) {
                    seq![
                        Issue::BitrateOutOfRange {
                            codec: spec.codec,
                            requested_kbps: kbps,
                            allowed_kbps: span(ranges),
                        },
                    ]
                } else {
                    Seq::empty()
                }
            },
            None => Seq::empty(),
        };
        rate + depth + bitrate
    }
}

/// Every reason `device` refuses `spec`, in the order they are reported.
pub open spec fn spec_check(spec: AudioSpec, device: DeviceProfile) -> Seq<Issue> {
    issues_for(spec, rows_for(device.formats@, spec.codec))
}

/// `device` will play `spec`.
pub open spec fn plays(spec: AudioSpec, device: DeviceProfile) -> bool {
    spec_check(spec, device).len() == 0
}

/// A player takes a stream exactly when it lists the codec and some row of it
/// admits the rate, the depth (if any) and the bitrate (if any, and if the
/// codec carries bitrate limits at all).
pub proof fn lemma_plays_iff(spec: AudioSpec, device: DeviceProfile)
    ensures
        plays(spec, device) <==> {
            let rows = rows_for(device.formats@, spec.codec);
            &&& rows.len() != 0
            &&& rate_admitted(rows, spec.sample_rate_hz)
            &&& (spec.bit_depth matches Some(bits) ==> depth_admitted(rows, bits))
            &&& (spec.bitrate_kbps matches Some(kbps) ==> bitrate_ranges(rows).len() == 0
                || kbps_admitted(bitrate_ranges(rows), kbps))
        },
{
}

fn contains_u32(values: &[u32], wanted: u32) -> (found: bool)
    ensures
        found == values@.contains(wanted),
{
    let mut i: usize = 0;
    while i < values.len()
        invariant
            i <= values@.len(),
            forall|j: int| 0 <= j < i ==> values@[j] != wanted,
        decreases values@.len() - i,
    {
        if values[i] == wanted {
            return true;
        }
        i += 1;
    }
    false
}

fn contains_u8(values: &[u8], wanted: u8) -> (found: bool)
    ensures
        found == values@.contains(wanted),
{
    let mut i: usize = 0;
    while i < values.len()
        invariant
            i <= values@.len(),
            forall|j: int| 0 <= j < i ==> values@[j] != wanted,
        decreases values@.len() - i,
    {
        if values[i] == wanted {
            return true;
        }
        i += 1;
    }
    false
}

fn any_row_has_rate(rows: &Vec<FormatSupport>, hz: u32) -> (found: bool)
    ensures
        found == rate_admitted(rows@, hz),
{
    let mut i: usize = 0;
    while i < rows.len()
        invariant
            i <= rows@.len(),
            forall|j: int| 0 <= j < i ==> !(#[trigger] rows@[j]).sample_rates_hz@.contains(hz),
        decreases rows@.len() - i,
    {
        if contains_u32(rows[i].sample_rates_hz, hz) {
            return true;
        }
        i += 1;
    }
    false
}

fn any_row_has_depth(rows: &Vec<FormatSupport>, bits: u8) -> (found: bool)
    ensures
        found == depth_admitted(rows@, bits),
{
    let mut i: usize = 0;
    while i < rows.len()
        invariant
            i <= rows@.len(),
            forall|j: int| 0 <= j < i ==> !(#[trigger] rows@[j]).bit_depths@.contains(bits),
        decreases rows@.len() - i,
    {
        if contains_u8(rows[i].bit_depths, bits) {
            return true;
        }
        i += 1;
    }
    false
}

fn lossy_ranges(rows: &Vec<FormatSupport>) -> (ranges: Vec<(u16, u16)>)
    ensures
        ranges@ == bitrate_ranges(rows@),
{
    let mut ranges: Vec<(u16, u16)> = Vec::new();
    let n = rows.len();
    let mut i: usize = 0;
    while i < n
        invariant
            n == rows@.len(),
            i <= n,
            ranges@ == bitrate_ranges(rows@.take(i as int)),
        decreases n - i,
    {
        let row = rows[i];
        proof {
            assert(rows@.take(i + 1).drop_last() =~= rows@.take(i as int));
            assert(rows@.take(i + 1).last() == row);
        }
        match row.lossy {
            Some(limits) => ranges.push(limits.bitrate_kbps),
            None => {},
        }
        i += 1;
    }
    assert(rows@.take(n as int) =~= rows@);
    ranges
}

fn any_range_holds(ranges: &Vec<(u16, u16)>, kbps: u16) -> (found: bool)
    ensures
        found == kbps_admitted(ranges@, kbps),
{
    let mut i: usize = 0;
    while i < ranges.len()
        invariant
            i <= ranges@.len(),
            forall|j: int| 0 <= j < i ==> !((#[trigger] ranges@[j]).0 <= kbps <= ranges@[j].1),
        decreases ranges@.len() - i,
    {
        let (min, max) = ranges[i];
        if min <= kbps && kbps <= max {
            return true;
        }
        i += 1;
    }
    false
}

fn span_of(ranges: &Vec<(u16, u16)>) -> (bounds: (u16, u16))
    ensures
        bounds == span(ranges@),
{
    let n = ranges.len();
    let mut lo: u16 = u16::MAX;
    let mut hi: u16 = 0;
    let mut i: usize = 0;
    while i < n
        invariant
            n == ranges@.len(),
            i <= n,
            (lo, hi) == span(ranges@.take(i as int)),
        decreases n - i,
    {
        let (min, max) = ranges[i];
        proof {
            assert(ranges@.take(i + 1).drop_last() =~= ranges@.take(i as int));
            assert(ranges@.take(i + 1).last() == (min, max));
        }
        if min < lo {
            lo = min;
        }
        if max > hi {
            hi = max;
        }
        i += 1;
    }
    assert(ranges@.take(n as int) =~= ranges@);
    (lo, hi)
}

/// Every reason `device` will refuse `spec`, or an empty list if it will
/// play.
///
/// An unsupported codec short-circuits the rest: without a format row there
/// is nothing to compare a rate or a depth against. Everything past that
/// point is independent, so the remaining checks all run and all report. A
/// value is acceptable when any row for the codec admits it.
pub fn check(spec: &AudioSpec, device: &DeviceProfile) -> (issues: Vec<Issue>)
    ensures
        issues@ == spec_check(*spec, *device),
{
    let rows = device.formats_for(spec.codec);
    if rows.len() == 0 {
        let mut only: Vec<Issue> = Vec::new();
        only.push(Issue::CodecUnsupported { codec: spec.codec });
        assert(only@ =~= spec_check(*spec, *device));
        return only;
    }
    let mut issues: Vec<Issue> = Vec::new();

    if !any_row_has_rate(&rows, spec.sample_rate_hz) {
        issues.push(
            Issue::SampleRateUnsupported { codec: spec.codec, requested_hz: spec.sample_rate_hz },
        );
    }
    let ghost after_rate = issues@;

    match spec.bit_depth {
        Some(requested_bits) => {
            if !any_row_has_depth(&rows, requested_bits) {
                issues.push(Issue::BitDepthUnsupported { codec: spec.codec, requested_bits });
            }
        },
        None => {},
    }
    let ghost after_depth = issues@;

    match spec.bitrate_kbps {
        Some(requested_kbps) => {
            let ranges = lossy_ranges(&rows);
            if ranges.len() != 0 && !any_range_holds(&ranges, requested_kbps) {
                let allowed_kbps = span_of(&ranges);
                issues.push(
                    Issue::BitrateOutOfRange { codec: spec.codec, requested_kbps, allowed_kbps },
                );
            }
        },
        None => {},
    }
    proof {
        let fs = rows_for(device.formats@, spec.codec);
        let issues_rate: Seq<Issue> = if rate_admitted(fs, spec.sample_rate_hz) {
            Seq::empty()
        } else {
            seq![
                Issue::SampleRateUnsupported {
                    codec: spec.codec,
                    requested_hz: spec.sample_rate_hz,
                },
            ]
        };
        assert(after_rate =~= issues_rate);
        assert(issues@ =~= spec_check(*spec, *device));
    }
    issues
}

} // verus!

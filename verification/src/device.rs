//! What each supported CDJ/XDJ player can actually play.
//!
//! Every value here comes from the manufacturer's own operating instructions.
//! Three properties of the real hardware shape the model:
//!
//! 1. Sample-rate limits are per format, not per device. A CDJ-3000 plays
//!    96 kHz FLAC but only 48 kHz MP3.
//! 2. `.m4a` is ambiguous: it carries either AAC or ALAC, so compatibility is
//!    decided from the codec found in the stream.
//! 3. Support is not always yes or no: some manuals say nothing, and for the
//!    XDJ-XZ the sources contradict each other.
//!
//! The tables describe the range worth converting into. Sampling rates at or
//! below 24 kHz are omitted, and USB is assumed throughout.

use vstd::prelude::*;

use crate::text::str_eq;

verus! {

/// Audio codec, as identified from the stream itself.
#[derive(Debug, Clone, Copy, PartialEq, Eq, Structural, Hash)]
pub enum Codec {
    Mp3,
    /// AAC Low Complexity. No player lists any other AAC profile.
    AacLc,
    Alac,
    Flac,
    /// Uncompressed PCM in a RIFF/WAVE container.
    PcmWav,
    /// Uncompressed PCM in an AIFF container.
    PcmAiff,
}

/// Whether a device supports something, including the cases the
/// documentation leaves open.
#[derive(Debug, Clone, Copy, PartialEq, Eq, Structural, Hash)]
pub enum Support {
    Yes,
    No,
    /// The manual says nothing either way: unverified rather than ruled out.
    Unknown,
    /// Official sources contradict each other.
    Conflicting,
}

#[derive(Debug, Clone, Copy, PartialEq, Eq, Structural, Hash)]
pub enum FileSystem {
    Fat16,
    Fat32,
    ExFat,
    HfsPlus,
    Ntfs,
}

/// Limits that apply only to lossy codecs.
#[derive(Debug, Clone, Copy, PartialEq, Eq)]
pub struct LossyLimits {
    /// Inclusive `(min, max)` in kbps.
    pub bitrate_kbps: (u16, u16),
    pub vbr: Support,
}

/// What one device accepts for one codec.
///
/// A device may list the same codec more than once when the limits differ
/// between the variants it accepts.
#[derive(Debug, Clone, Copy, PartialEq, Eq)]
pub struct FormatSupport {
    pub codec: Codec,
    /// Sampling rates in Hz, as enumerated by the manufacturer.
    pub sample_rates_hz: &'static [u32],
    pub bit_depths: &'static [u8],
    /// `None` for lossless codecs.
    pub lossy: Option<LossyLimits>,
}

/// One player, as far as file compatibility is concerned.
#[derive(Debug, Clone, PartialEq, Eq)]
pub struct DeviceProfile {
    /// Stable kebab-case key used in profiles and on the command line.
    pub id: &'static str,
    pub display_name: &'static str,
    pub release_year: u16,
    pub formats: Vec<FormatSupport>,
    pub filesystems: Vec<(FileSystem, Support)>,
    /// Files nested deeper than this are not playable.
    pub max_folder_depth: u8,
    /// Entries beyond this are not listed by the browser.
    pub max_files_per_folder: Option<u32>,
    /// Longest artwork edge in pixels; `None` where the manual states no limit.
    pub max_artwork_px: Option<u32>,
}

/// The rows of `formats` that describe `codec`, in table order.
pub open spec fn rows_for(formats: Seq<FormatSupport>, codec: Codec) -> Seq<FormatSupport> {
    formats.filter(|f: FormatSupport| f.codec == codec)
}

/// The verdict of the first entry naming `fs`, or `Unknown` when none does.
pub open spec fn first_support(entries: Seq<(FileSystem, Support)>, fs: FileSystem) -> Support
    decreases entries.len(),
{
    if entries.len() == 0 {
        Support::Unknown
    } else if entries[0].0 == fs {
        entries[0].1
    } else {
        first_support(entries.drop_first(), fs)
    }
}

impl DeviceProfile {
    /// Support entries for `codec`, which may be empty if the player cannot
    /// play it at all.
    pub fn formats_for(&self, codec: Codec) -> (rows: Vec<FormatSupport>)
        ensures
            rows@ == rows_for(self.formats@, codec),
    {
        let mut rows: Vec<FormatSupport> = Vec::new();
        let n = self.formats.len();
        let mut i: usize = 0;
        while i < n
            invariant
                n == self.formats@.len(),
                i <= n,
                rows@ == rows_for(self.formats@.take(i as int), codec),
            decreases n - i,
        {
            let f = self.formats[i];
            let ghost before = rows@;
            if f.codec == codec {
                rows.push(f);
            }
            proof {
                let next = self.formats@.take(i + 1);
                assert(next.drop_last() =~= self.formats@.take(i as int));
                assert(next.last() == f);
                reveal_with_fuel(Seq::<_>::filter, 1);
                assert(rows_for(next, codec) == if f.codec == codec {
                    before.push(f)
                } else {
                    before
                });
            }
            i += 1;
        }
        assert(self.formats@.take(n as int) =~= self.formats@);
        rows
    }

    /// What the manual says about reading `fs`; `Unknown` where it is silent.
    pub fn filesystem_support(&self, fs: FileSystem) -> (support: Support)
        ensures
            support == first_support(self.filesystems@, fs),
    {
        let n = self.filesystems.len();
        let mut i: usize = 0;
        assert(self.filesystems@.skip(0) =~= self.filesystems@);
        while i < n
            invariant
                n == self.filesystems@.len(),
                i <= n,
                first_support(self.filesystems@, fs) == first_support(
                    self.filesystems@.skip(i as int),
                    fs,
                ),
            decreases n - i,
        {
            let (candidate, support) = self.filesystems[i];
            assert(self.filesystems@.skip(i as int)[0] == self.filesystems@[i as int]);
            if candidate == fs {
                return support;
            }
            assert(self.filesystems@.skip(i as int).drop_first() =~= self.filesystems@.skip(
                i + 1,
            ));
            i += 1;
        }
        Support::Unknown
    }
}

// ---------------------------------------------------------------------------
// The documented table, stated row by row.
// ---------------------------------------------------------------------------

pub open spec fn spec_rates_std() -> Seq<u32> {
    seq![44_100u32, 48_000u32]
}

/// Players up to the 2021 generation also accept 32 kHz.
pub open spec fn spec_rates_with_32k() -> Seq<u32> {
    seq![32_000u32, 44_100u32, 48_000u32]
}

pub open spec fn spec_rates_hires() -> Seq<u32> {
    seq![44_100u32, 48_000u32, 88_200u32, 96_000u32]
}

pub open spec fn spec_depths_pcm() -> Seq<u8> {
    seq![16u8, 24u8]
}

/// Every player lists MP3 and AAC as 16-bit only.
pub open spec fn spec_depths_lossy() -> Seq<u8> {
    seq![16u8]
}

pub open spec fn is_row(
    f: FormatSupport,
    codec: Codec,
    rates: Seq<u32>,
    depths: Seq<u8>,
    lossy: Option<LossyLimits>,
) -> bool {
    &&& f.codec == codec
    &&& f.sample_rates_hz@ == rates
    &&& f.bit_depths@ == depths
    &&& f.lossy == lossy
}

pub open spec fn is_mp3_row(f: FormatSupport, rates: Seq<u32>, vbr: Support) -> bool {
    is_row(
        f,
        Codec::Mp3,
        rates,
        spec_depths_lossy(),
        Some(LossyLimits { bitrate_kbps: (32u16, 320u16), vbr }),
    )
}

pub open spec fn is_aac_row(f: FormatSupport, rates: Seq<u32>, vbr: Support) -> bool {
    is_row(
        f,
        Codec::AacLc,
        rates,
        spec_depths_lossy(),
        Some(LossyLimits { bitrate_kbps: (16u16, 320u16), vbr }),
    )
}

pub open spec fn is_lossless_row(f: FormatSupport, codec: Codec, rates: Seq<u32>) -> bool {
    is_row(f, codec, rates, spec_depths_pcm(), None)
}

/// CDJ-3000, CDJ-3000X, XDJ-AZ and OPUS-QUAD.
pub open spec fn is_formats_hires(fs: Seq<FormatSupport>) -> bool {
    &&& fs.len() == 6
    &&& is_mp3_row(fs[0], spec_rates_std(), Support::Unknown)
    &&& is_aac_row(fs[1], spec_rates_std(), Support::Unknown)
    &&& is_lossless_row(fs[2], Codec::PcmWav, spec_rates_hires())
    &&& is_lossless_row(fs[3], Codec::PcmAiff, spec_rates_hires())
    &&& is_lossless_row(fs[4], Codec::Alac, spec_rates_hires())
    &&& is_lossless_row(fs[5], Codec::Flac, spec_rates_hires())
}

/// XDJ-AN and OMNIS-DUO.
pub open spec fn is_formats_lossless_48k(fs: Seq<FormatSupport>) -> bool {
    &&& fs.len() == 6
    &&& is_mp3_row(fs[0], spec_rates_std(), Support::Unknown)
    &&& is_aac_row(fs[1], spec_rates_std(), Support::Unknown)
    &&& is_lossless_row(fs[2], Codec::PcmWav, spec_rates_std())
    &&& is_lossless_row(fs[3], Codec::PcmAiff, spec_rates_std())
    &&& is_lossless_row(fs[4], Codec::Alac, spec_rates_std())
    &&& is_lossless_row(fs[5], Codec::Flac, spec_rates_std())
}

/// CDJ-2000NXS2.
pub open spec fn is_formats_nxs2(fs: Seq<FormatSupport>) -> bool {
    &&& fs.len() == 6
    &&& is_mp3_row(fs[0], spec_rates_with_32k(), Support::Yes)
    &&& is_aac_row(fs[1], spec_rates_with_32k(), Support::Yes)
    &&& is_lossless_row(fs[2], Codec::PcmWav, spec_rates_hires())
    &&& is_lossless_row(fs[3], Codec::PcmAiff, spec_rates_hires())
    &&& is_lossless_row(fs[4], Codec::Alac, spec_rates_hires())
    &&& is_lossless_row(fs[5], Codec::Flac, spec_rates_hires())
}

/// XDJ-RX3 and XDJ-XZ: FLAC yes, ALAC no.
pub open spec fn is_formats_flac_no_alac(fs: Seq<FormatSupport>) -> bool {
    &&& fs.len() == 5
    &&& is_mp3_row(fs[0], spec_rates_with_32k(), Support::Yes)
    &&& is_aac_row(fs[1], spec_rates_with_32k(), Support::Yes)
    &&& is_lossless_row(fs[2], Codec::PcmWav, spec_rates_std())
    &&& is_lossless_row(fs[3], Codec::PcmAiff, spec_rates_std())
    &&& is_lossless_row(fs[4], Codec::Flac, spec_rates_std())
}

/// XDJ-RR: uncompressed PCM only.
pub open spec fn is_formats_pcm_only(fs: Seq<FormatSupport>) -> bool {
    &&& fs.len() == 4
    &&& is_mp3_row(fs[0], spec_rates_with_32k(), Support::Yes)
    &&& is_aac_row(fs[1], spec_rates_with_32k(), Support::Yes)
    &&& is_lossless_row(fs[2], Codec::PcmWav, spec_rates_std())
    &&& is_lossless_row(fs[3], Codec::PcmAiff, spec_rates_std())
}

pub open spec fn is_filesystems(fss: Seq<(FileSystem, Support)>, exfat: Support) -> bool {
    fss == seq![
        (FileSystem::Fat16, Support::Yes),
        (FileSystem::Fat32, Support::Yes),
        (FileSystem::ExFat, exfat),
        (FileSystem::HfsPlus, Support::Yes),
        (FileSystem::Ntfs, Support::No),
    ]
}

/// Which of the five format tables a player lists.
#[derive(Debug, Clone, Copy, PartialEq, Eq, Structural)]
pub enum FormatTable {
    HiRes,
    Lossless48k,
    Nxs2,
    FlacNoAlac,
    PcmOnly,
}

pub open spec fn has_format_table(fs: Seq<FormatSupport>, table: FormatTable) -> bool {
    match table {
        FormatTable::HiRes => is_formats_hires(fs),
        FormatTable::Lossless48k => is_formats_lossless_48k(fs),
        FormatTable::Nxs2 => is_formats_nxs2(fs),
        FormatTable::FlacNoAlac => is_formats_flac_no_alac(fs),
        FormatTable::PcmOnly => is_formats_pcm_only(fs),
    }
}

/// `d` is the documented player with these particulars.
pub open spec fn is_profile(
    d: DeviceProfile,
    id: Seq<char>,
    name: Seq<char>,
    year: u16,
    table: FormatTable,
    exfat: Support,
    artwork: Option<u32>,
) -> bool {
    &&& d.id@ == id
    &&& d.display_name@ == name
    &&& d.release_year == year
    &&& has_format_table(d.formats@, table)
    &&& is_filesystems(d.filesystems@, exfat)
    &&& d.max_folder_depth == 8
    &&& d.max_files_per_folder == Some(10_000u32)
    &&& d.max_artwork_px == artwork
}

pub open spec fn is_xdj_an(d: DeviceProfile) -> bool {
    is_profile(d, "xdj-an"@, "XDJ-AN"@, 2026, FormatTable::Lossless48k, Support::Yes, Some(800u32))
}

pub open spec fn is_cdj_3000x(d: DeviceProfile) -> bool {
    is_profile(d, "cdj-3000x"@, "CDJ-3000X"@, 2025, FormatTable::HiRes, Support::Yes, None)
}

pub open spec fn is_xdj_az(d: DeviceProfile) -> bool {
    is_profile(d, "xdj-az"@, "XDJ-AZ"@, 2025, FormatTable::HiRes, Support::Yes, None)
}

pub open spec fn is_omnis_duo(d: DeviceProfile) -> bool {
    is_profile(
        d,
        "omnis-duo"@,
        "OMNIS-DUO"@,
        2024,
        FormatTable::Lossless48k,
        Support::Yes,
        Some(800u32),
    )
}

pub open spec fn is_opus_quad(d: DeviceProfile) -> bool {
    is_profile(d, "opus-quad"@, "OPUS-QUAD"@, 2023, FormatTable::HiRes, Support::Yes, None)
}

pub open spec fn is_xdj_rx3(d: DeviceProfile) -> bool {
    is_profile(d, "xdj-rx3"@, "XDJ-RX3"@, 2021, FormatTable::FlacNoAlac, Support::Yes, None)
}

pub open spec fn is_cdj_3000(d: DeviceProfile) -> bool {
    is_profile(d, "cdj-3000"@, "CDJ-3000"@, 2020, FormatTable::HiRes, Support::Yes, None)
}

pub open spec fn is_xdj_xz(d: DeviceProfile) -> bool {
    is_profile(
        d,
        "xdj-xz"@,
        "XDJ-XZ"@,
        2019,
        FormatTable::FlacNoAlac,
        Support::Conflicting,
        None,
    )
}

pub open spec fn is_xdj_rr(d: DeviceProfile) -> bool {
    is_profile(d, "xdj-rr"@, "XDJ-RR"@, 2018, FormatTable::PcmOnly, Support::No, Some(800u32))
}

pub open spec fn is_cdj_2000nxs2(d: DeviceProfile) -> bool {
    is_profile(d, "cdj-2000nxs2"@, "CDJ-2000NXS2"@, 2016, FormatTable::Nxs2, Support::No, None)
}

/// The whole table, newest first.
pub open spec fn is_device_table(t: Seq<DeviceProfile>) -> bool {
    &&& t.len() == 10
    &&& is_xdj_an(t[0])
    &&& is_cdj_3000x(t[1])
    &&& is_xdj_az(t[2])
    &&& is_omnis_duo(t[3])
    &&& is_opus_quad(t[4])
    &&& is_xdj_rx3(t[5])
    &&& is_cdj_3000(t[6])
    &&& is_xdj_xz(t[7])
    &&& is_xdj_rr(t[8])
    &&& is_cdj_2000nxs2(t[9])
}

/// `d` is one of the documented players.
pub open spec fn is_documented(d: DeviceProfile) -> bool {
    ||| is_xdj_an(d)
    ||| is_cdj_3000x(d)
    ||| is_xdj_az(d)
    ||| is_omnis_duo(d)
    ||| is_opus_quad(d)
    ||| is_xdj_rx3(d)
    ||| is_cdj_3000(d)
    ||| is_xdj_xz(d)
    ||| is_xdj_rr(d)
    ||| is_cdj_2000nxs2(d)
}

/// Every entry of the table is a documented player under a known id.
pub proof fn lemma_table_entries(t: Seq<DeviceProfile>)
    requires
        is_device_table(t),
    ensures
        forall|i: int|
            0 <= i < t.len() ==> is_documented(#[trigger] t[i]) && is_known_id(t[i].id@),
{
    assert forall|i: int| 0 <= i < t.len() implies is_documented(#[trigger] t[i]) && is_known_id(
        t[i].id@,
    ) by {
        if i == 0 {
        } else if i == 1 {
        } else if i == 2 {
        } else if i == 3 {
        } else if i == 4 {
        } else if i == 5 {
        } else if i == 6 {
        } else if i == 7 {
        } else if i == 8 {
        } else {
        }
    }
}

/// The ids the table knows.
pub open spec fn is_known_id(id: Seq<char>) -> bool {
    ||| id == "xdj-an"@
    ||| id == "cdj-3000x"@
    ||| id == "xdj-az"@
    ||| id == "omnis-duo"@
    ||| id == "opus-quad"@
    ||| id == "xdj-rx3"@
    ||| id == "cdj-3000"@
    ||| id == "xdj-xz"@
    ||| id == "xdj-rr"@
    ||| id == "cdj-2000nxs2"@
}

// ---------------------------------------------------------------------------
// Building the table.
// ---------------------------------------------------------------------------

pub const RATES_STD: [u32; 2] = [44_100, 48_000];

pub const RATES_WITH_32K: [u32; 3] = [32_000, 44_100, 48_000];

pub const RATES_HIRES: [u32; 4] = [44_100, 48_000, 88_200, 96_000];

pub const DEPTHS_PCM: [u8; 2] = [16, 24];

pub const DEPTHS_LOSSY: [u8; 1] = [16];

fn mp3(sample_rates_hz: &'static [u32], vbr: Support) -> (f: FormatSupport)
    ensures
        is_mp3_row(f, sample_rates_hz@, vbr),
{
    assert(DEPTHS_LOSSY@ =~= spec_depths_lossy());
    FormatSupport {
        codec: Codec::Mp3,
        sample_rates_hz,
        bit_depths: &DEPTHS_LOSSY,
        lossy: Some(LossyLimits { bitrate_kbps: (32, 320), vbr }),
    }
}

fn aac(sample_rates_hz: &'static [u32], vbr: Support) -> (f: FormatSupport)
    ensures
        is_aac_row(f, sample_rates_hz@, vbr),
{
    assert(DEPTHS_LOSSY@ =~= spec_depths_lossy());
    FormatSupport {
        codec: Codec::AacLc,
        sample_rates_hz,
        bit_depths: &DEPTHS_LOSSY,
        lossy: Some(LossyLimits { bitrate_kbps: (16, 320), vbr }),
    }
}

fn lossless(codec: Codec, sample_rates_hz: &'static [u32]) -> (f: FormatSupport)
    ensures
        is_lossless_row(f, codec, sample_rates_hz@),
{
    FormatSupport { codec, sample_rates_hz, bit_depths: &DEPTHS_PCM, lossy: None }
}

/// The rows behind one of the five published format tables.
fn formats(table: FormatTable) -> (fs: Vec<FormatSupport>)
    ensures
        has_format_table(fs@, table),
{
    let mut fs: Vec<FormatSupport> = Vec::new();
    match table {
        FormatTable::HiRes => {
            fs.push(mp3(&RATES_STD, Support::Unknown));
            fs.push(aac(&RATES_STD, Support::Unknown));
            fs.push(lossless(Codec::PcmWav, &RATES_HIRES));
            fs.push(lossless(Codec::PcmAiff, &RATES_HIRES));
            fs.push(lossless(Codec::Alac, &RATES_HIRES));
            fs.push(lossless(Codec::Flac, &RATES_HIRES));
        },
        FormatTable::Lossless48k => {
            fs.push(mp3(&RATES_STD, Support::Unknown));
            fs.push(aac(&RATES_STD, Support::Unknown));
            fs.push(lossless(Codec::PcmWav, &RATES_STD));
            fs.push(lossless(Codec::PcmAiff, &RATES_STD));
            fs.push(lossless(Codec::Alac, &RATES_STD));
            fs.push(lossless(Codec::Flac, &RATES_STD));
        },
        FormatTable::Nxs2 => {
            fs.push(mp3(&RATES_WITH_32K, Support::Yes));
            fs.push(aac(&RATES_WITH_32K, Support::Yes));
            fs.push(lossless(Codec::PcmWav, &RATES_HIRES));
            fs.push(lossless(Codec::PcmAiff, &RATES_HIRES));
            fs.push(lossless(Codec::Alac, &RATES_HIRES));
            fs.push(lossless(Codec::Flac, &RATES_HIRES));
        },
        FormatTable::FlacNoAlac => {
            fs.push(mp3(&RATES_WITH_32K, Support::Yes));
            fs.push(aac(&RATES_WITH_32K, Support::Yes));
            fs.push(lossless(Codec::PcmWav, &RATES_STD));
            fs.push(lossless(Codec::PcmAiff, &RATES_STD));
            fs.push(lossless(Codec::Flac, &RATES_STD));
        },
        FormatTable::PcmOnly => {
            fs.push(mp3(&RATES_WITH_32K, Support::Yes));
            fs.push(aac(&RATES_WITH_32K, Support::Yes));
            fs.push(lossless(Codec::PcmWav, &RATES_STD));
            fs.push(lossless(Codec::PcmAiff, &RATES_STD));
        },
    }
    fs
}

fn filesystems(exfat: Support) -> (fss: Vec<(FileSystem, Support)>)
    ensures
        is_filesystems(fss@, exfat),
{
    let mut fss: Vec<(FileSystem, Support)> = Vec::new();
    fss.push((FileSystem::Fat16, Support::Yes));
    fss.push((FileSystem::Fat32, Support::Yes));
    fss.push((FileSystem::ExFat, exfat));
    fss.push((FileSystem::HfsPlus, Support::Yes));
    fss.push((FileSystem::Ntfs, Support::No));
    assert(fss@ =~= seq![
        (FileSystem::Fat16, Support::Yes),
        (FileSystem::Fat32, Support::Yes),
        (FileSystem::ExFat, exfat),
        (FileSystem::HfsPlus, Support::Yes),
        (FileSystem::Ntfs, Support::No),
    ]);
    fss
}

fn player(
    id: &'static str,
    display_name: &'static str,
    release_year: u16,
    table: FormatTable,
    exfat: Support,
    max_artwork_px: Option<u32>,
) -> (d: DeviceProfile)
    ensures
        is_profile(d, id@, display_name@, release_year, table, exfat, max_artwork_px),
{
    DeviceProfile {
        id,
        display_name,
        release_year,
        formats: formats(table),
        filesystems: filesystems(exfat),
        max_folder_depth: 8,
        max_files_per_folder: Some(10_000),
        max_artwork_px,
    }
}

/// Every player this program checks against, newest first.
pub fn devices() -> (t: Vec<DeviceProfile>)
    ensures
        is_device_table(t@),
{
    let mut t: Vec<DeviceProfile> = Vec::new();
    t.push(player("xdj-an", "XDJ-AN", 2026, FormatTable::Lossless48k, Support::Yes, Some(800)));
    t.push(player("cdj-3000x", "CDJ-3000X", 2025, FormatTable::HiRes, Support::Yes, None));
    t.push(player("xdj-az", "XDJ-AZ", 2025, FormatTable::HiRes, Support::Yes, None));
    t.push(
        player("omnis-duo", "OMNIS-DUO", 2024, FormatTable::Lossless48k, Support::Yes, Some(800)),
    );
    t.push(player("opus-quad", "OPUS-QUAD", 2023, FormatTable::HiRes, Support::Yes, None));
    t.push(player("xdj-rx3", "XDJ-RX3", 2021, FormatTable::FlacNoAlac, Support::Yes, None));
    t.push(player("cdj-3000", "CDJ-3000", 2020, FormatTable::HiRes, Support::Yes, None));
    t.push(
        player("xdj-xz", "XDJ-XZ", 2019, FormatTable::FlacNoAlac, Support::Conflicting, None),
    );
    t.push(player("xdj-rr", "XDJ-RR", 2018, FormatTable::PcmOnly, Support::No, Some(800)));
    t.push(
        player("cdj-2000nxs2", "CDJ-2000NXS2", 2016, FormatTable::Nxs2, Support::No, None),
    );
    t
}

/// Look up a player by its stable id.
pub fn by_id(id: &str) -> (found: Option<DeviceProfile>)
    ensures
        found is Some <==> is_known_id(id@),
        found matches Some(d) ==> d.id@ == id@ && is_documented(d),
{
    let mut table = devices();
    let ghost t = table@;
    let n = table.len();
    let mut i: usize = 0;
    while i < n
        invariant
            is_device_table(t),
            table@ == t,
            n == t.len(),
            i <= n,
            forall|j: int| 0 <= j < i ==> t[j].id@ != id@,
        decreases n - i,
    {
        if str_eq(table[i].id, id) {
            proof {
                lemma_table_entries(t);
            }
            let d = table.swap_remove(i);
            return Some(d);
        }
        i += 1;
    }
    assert(t[0].id@ != id@ && t[1].id@ != id@ && t[2].id@ != id@ && t[3].id@ != id@);
    assert(t[4].id@ != id@ && t[5].id@ != id@ && t[6].id@ != id@ && t[7].id@ != id@);
    assert(t[8].id@ != id@ && t[9].id@ != id@);
    None
}

} // verus!

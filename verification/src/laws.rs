//! What holds of the compatibility table and of the built-in profiles as a
//! whole.

use vstd::prelude::*;

use crate::compat::{
    AudioSpec, bitrate_ranges, depth_admitted, kbps_admitted, lemma_plays_iff, plays,
    rate_admitted,
};
use crate::device::{
    Codec, DeviceProfile, FileSystem, FormatSupport, Support, first_support, is_device_table,
    rows_for,
};
use crate::plan::{is_cdj_safe, is_lossless, spec_is_lossy, spec_plan};

verus! {

/// No two rows of `fs` share a codec.
pub open spec fn codecs_distinct(fs: Seq<FormatSupport>) -> bool {
    forall|i: int, j: int| 0 <= i < j < fs.len() ==> fs[i].codec != fs[j].codec
}

/// With distinct codecs, the rows for a codec are its one row, or none.
pub proof fn lemma_rows_for_distinct(fs: Seq<FormatSupport>, c: Codec)
    requires
        codecs_distinct(fs),
    ensures
        (forall|k: int| 0 <= k < fs.len() ==> fs[k].codec != c) ==> rows_for(fs, c).len() == 0,
        forall|k: int| 0 <= k < fs.len() && fs[k].codec == c ==> rows_for(fs, c) == seq![fs[k]],
    decreases fs.len(),
{
    reveal_with_fuel(Seq::<_>::filter, 1);
    if fs.len() > 0 {
        let init = fs.drop_last();
        assert(codecs_distinct(init));
        lemma_rows_for_distinct(init, c);
        if fs.last().codec == c {
            assert(forall|k: int| 0 <= k < init.len() ==> init[k].codec != c);
            assert(rows_for(fs, c) =~= seq![fs.last()]);
        } else {
            assert(rows_for(fs, c) == rows_for(init, c));
            assert forall|k: int| 0 <= k < fs.len() && fs[k].codec == c implies rows_for(fs, c)
                == seq![fs[k]] by {
                assert(k < init.len());
                assert(init[k] == fs[k]);
            }
        }
    }
}

/// Every row of every player lists its codec once.
pub proof fn lemma_table_codecs_distinct(t: Seq<DeviceProfile>)
    requires
        is_device_table(t),
    ensures
        forall|i: int| 0 <= i < t.len() ==> codecs_distinct(#[trigger] t[i].formats@),
{
}

/// Every player in the table plays MP3: it lists exactly one MP3 row, its
/// first.
pub proof fn every_device_plays_mp3(t: Seq<DeviceProfile>)
    requires
        is_device_table(t),
    ensures
        forall|i: int|
            0 <= i < t.len() ==> rows_for((#[trigger] t[i]).formats@, Codec::Mp3) == seq![
                t[i].formats@[0],
            ],
{
    lemma_table_codecs_distinct(t);
    assert forall|i: int| 0 <= i < t.len() implies rows_for(
        (#[trigger] t[i]).formats@,
        Codec::Mp3,
    ) == seq![t[i].formats@[0]] by {
        lemma_rows_for_distinct(t[i].formats@, Codec::Mp3);
    }
}

/// A row carries bitrate limits exactly when its codec is lossy.
pub proof fn lossy_formats_carry_bitrate_limits(t: Seq<DeviceProfile>)
    requires
        is_device_table(t),
    ensures
        forall|i: int, j: int|
            0 <= i < t.len() && 0 <= j < t[i].formats@.len() ==> ((#[trigger] t[i].formats@[j]).lossy
                is Some <==> spec_is_lossy(t[i].formats@[j].codec)),
{
}

/// The ids in the table are unique.
pub proof fn device_ids_are_unique(t: Seq<DeviceProfile>)
    requires
        is_device_table(t),
    ensures
        forall|i: int, j: int| 0 <= i < j < t.len() ==> (#[trigger] t[i]).id@ != (#[trigger] t[j]).id@,
{
    reveal_strlit("xdj-an");
    reveal_strlit("cdj-3000x");
    reveal_strlit("xdj-az");
    reveal_strlit("omnis-duo");
    reveal_strlit("opus-quad");
    reveal_strlit("xdj-rx3");
    reveal_strlit("cdj-3000");
    reveal_strlit("xdj-xz");
    reveal_strlit("xdj-rr");
    reveal_strlit("cdj-2000nxs2");
    // Two ids differ in length or at a position named here.
    assert("xdj-an"@.len() != "cdj-3000x"@.len());
    assert("xdj-an"@[5] != "xdj-az"@[5]);
    assert("xdj-an"@.len() != "omnis-duo"@.len());
    assert("xdj-an"@.len() != "opus-quad"@.len());
    assert("xdj-an"@.len() != "xdj-rx3"@.len());
    assert("xdj-an"@.len() != "cdj-3000"@.len());
    assert("xdj-an"@[4] != "xdj-xz"@[4]);
    assert("xdj-an"@[4] != "xdj-rr"@[4]);
    assert("xdj-an"@.len() != "cdj-2000nxs2"@.len());
    assert("cdj-3000x"@.len() != "xdj-az"@.len());
    assert("cdj-3000x"@[0] != "omnis-duo"@[0]);
    assert("cdj-3000x"@[0] != "opus-quad"@[0]);
    assert("cdj-3000x"@.len() != "xdj-rx3"@.len());
    assert("cdj-3000x"@.len() != "cdj-3000"@.len());
    assert("cdj-3000x"@.len() != "xdj-xz"@.len());
    assert("cdj-3000x"@.len() != "xdj-rr"@.len());
    assert("cdj-3000x"@.len() != "cdj-2000nxs2"@.len());
    assert("xdj-az"@.len() != "omnis-duo"@.len());
    assert("xdj-az"@.len() != "opus-quad"@.len());
    assert("xdj-az"@.len() != "xdj-rx3"@.len());
    assert("xdj-az"@.len() != "cdj-3000"@.len());
    assert("xdj-az"@[4] != "xdj-xz"@[4]);
    assert("xdj-az"@[4] != "xdj-rr"@[4]);
    assert("xdj-az"@.len() != "cdj-2000nxs2"@.len());
    assert("omnis-duo"@[1] != "opus-quad"@[1]);
    assert("omnis-duo"@.len() != "xdj-rx3"@.len());
    assert("omnis-duo"@.len() != "cdj-3000"@.len());
    assert("omnis-duo"@.len() != "xdj-xz"@.len());
    assert("omnis-duo"@.len() != "xdj-rr"@.len());
    assert("omnis-duo"@.len() != "cdj-2000nxs2"@.len());
    assert("opus-quad"@.len() != "xdj-rx3"@.len());
    assert("opus-quad"@.len() != "cdj-3000"@.len());
    assert("opus-quad"@.len() != "xdj-xz"@.len());
    assert("opus-quad"@.len() != "xdj-rr"@.len());
    assert("opus-quad"@.len() != "cdj-2000nxs2"@.len());
    assert("xdj-rx3"@.len() != "cdj-3000"@.len());
    assert("xdj-rx3"@.len() != "xdj-xz"@.len());
    assert("xdj-rx3"@.len() != "xdj-rr"@.len());
    assert("xdj-rx3"@.len() != "cdj-2000nxs2"@.len());
    assert("cdj-3000"@.len() != "xdj-xz"@.len());
    assert("cdj-3000"@.len() != "xdj-rr"@.len());
    assert("cdj-3000"@.len() != "cdj-2000nxs2"@.len());
    assert("xdj-xz"@[4] != "xdj-rr"@[4]);
    assert("xdj-xz"@.len() != "cdj-2000nxs2"@.len());
    assert("xdj-rr"@.len() != "cdj-2000nxs2"@.len());
    assert forall|i: int, j: int| 0 <= i < j < t.len() implies (#[trigger] t[i]).id@ != (#[trigger] t[j]).id@ by {
        if i == 0 {
            if j == 1 {
            } else if j == 2 {
            } else if j == 3 {
            } else if j == 4 {
            } else if j == 5 {
            } else if j == 6 {
            } else if j == 7 {
            } else if j == 8 {
            } else if j == 9 {
            }
        } else if i == 1 {
            if j == 2 {
            } else if j == 3 {
            } else if j == 4 {
            } else if j == 5 {
            } else if j == 6 {
            } else if j == 7 {
            } else if j == 8 {
            } else if j == 9 {
            }
        } else if i == 2 {
            if j == 3 {
            } else if j == 4 {
            } else if j == 5 {
            } else if j == 6 {
            } else if j == 7 {
            } else if j == 8 {
            } else if j == 9 {
            }
        } else if i == 3 {
            if j == 4 {
            } else if j == 5 {
            } else if j == 6 {
            } else if j == 7 {
            } else if j == 8 {
            } else if j == 9 {
            }
        } else if i == 4 {
            if j == 5 {
            } else if j == 6 {
            } else if j == 7 {
            } else if j == 8 {
            } else if j == 9 {
            }
        } else if i == 5 {
            if j == 6 {
            } else if j == 7 {
            } else if j == 8 {
            } else if j == 9 {
            }
        } else if i == 6 {
            if j == 7 {
            } else if j == 8 {
            } else if j == 9 {
            }
        } else if i == 7 {
            if j == 8 {
            } else if j == 9 {
            }
        } else if i == 8 {
            if j == 9 {
            }
        } else if i == 9 {
        }
    }
}

/// Lossless formats stop at 24 bits on every player, so a deeper stream is
/// refused everywhere: whatever else is wrong with it, it does not play.
pub proof fn deeper_than_24_bits_plays_nowhere(t: Seq<DeviceProfile>, spec: AudioSpec)
    requires
        is_device_table(t),
        spec.bit_depth matches Some(bits) && bits > 24,
    ensures
        forall|i: int| 0 <= i < t.len() ==> !plays(spec, #[trigger] t[i]),
{
    lemma_table_codecs_distinct(t);
    assert forall|i: int| 0 <= i < t.len() implies !plays(spec, #[trigger] t[i]) by {
        let fs = t[i].formats@;
        lemma_rows_for_distinct(fs, spec.codec);
        lemma_plays_iff(spec, t[i]);
        let rows = rows_for(fs, spec.codec);
        let bits = spec.bit_depth->0;
        if rows.len() != 0 {
            let k = choose|k: int| 0 <= k < fs.len() && fs[k].codec == spec.codec;
            assert(rows == seq![fs[k]]);
            assert(!fs[k].bit_depths@.contains(bits));
            assert(!depth_admitted(rows, bits));
        }
    }
}

/// The exFAT verdict of every player, with NTFS read by none of them.
pub proof fn filesystem_verdicts(t: Seq<DeviceProfile>)
    requires
        is_device_table(t),
    ensures
        forall|i: int|
            0 <= i < t.len() ==> first_support((#[trigger] t[i]).filesystems@, FileSystem::Ntfs)
                == Support::No,
        first_support(t[0].filesystems@, FileSystem::ExFat) == Support::Yes,
        first_support(t[6].filesystems@, FileSystem::ExFat) == Support::Yes,
        first_support(t[7].filesystems@, FileSystem::ExFat) == Support::Conflicting,
        first_support(t[8].filesystems@, FileSystem::ExFat) == Support::No,
        first_support(t[9].filesystems@, FileSystem::ExFat) == Support::No,
{
    assert forall|i: int| 0 <= i < t.len() implies first_support(
        (#[trigger] t[i]).filesystems@,
        FileSystem::Ntfs,
    ) == Support::No by {
        let f = t[i].filesystems@;
        assert(f.drop_first().drop_first().drop_first().drop_first().drop_first().len() == 0);
        reveal_with_fuel(first_support, 6);
    }
    reveal_with_fuel(first_support, 4);
}

/// The CDJ-safe profile's output plays on every player, from any source that
/// is not a lossy file under 32 kbps (its bitrate is kept, and no player takes
/// MP3 below 32 kbps).
pub proof fn cdj_safe_plays_everywhere(t: Seq<DeviceProfile>, source: AudioSpec, target: crate::plan::Target)
    requires
        is_device_table(t),
        is_cdj_safe(target),
        spec_is_lossy(source.codec) ==> (source.bitrate_kbps matches Some(kbps) ==> kbps >= 32),
    ensures
        forall|i: int| 0 <= i < t.len() ==> plays(spec_plan(source, target).output, #[trigger] t[i]),
{
    let output = spec_plan(source, target).output;
    lemma_table_codecs_distinct(t);
    assert forall|i: int| 0 <= i < t.len() implies plays(output, #[trigger] t[i]) by {
        let fs = t[i].formats@;
        lemma_rows_for_distinct(fs, Codec::Mp3);
        lemma_plays_iff(output, t[i]);
        let rows = rows_for(fs, Codec::Mp3);
        assert(rows == seq![fs[0]]);
        assert(rows[0].sample_rates_hz@.contains(44_100u32)) by {
            assert(fs[0].sample_rates_hz@[fs[0].sample_rates_hz@.len() - 2] == 44_100u32);
        }
        assert(rate_admitted(rows, 44_100u32));
        reveal_with_fuel(bitrate_ranges, 2);
        let ranges = bitrate_ranges(rows);
        assert(rows.drop_last().len() == 0);
        assert(ranges == seq![(32u16, 320u16)]);
        let kbps = output.bitrate_kbps->0;
        assert(ranges[0].0 <= kbps <= ranges[0].1);
        assert(kbps_admitted(ranges, kbps));
    }
}

/// The lossless profile's output plays on every player from any source at
/// 44.1 kHz or at least 48 kHz, whose depth (if any) is 16 bits or at least
/// 24: the ceilings bring everything else down to what all of them take.
pub proof fn lossless_plays_everywhere(t: Seq<DeviceProfile>, source: AudioSpec, target: crate::plan::Target)
    requires
        is_device_table(t),
        is_lossless(target),
        source.sample_rate_hz == 44_100 || source.sample_rate_hz >= 48_000,
        source.bit_depth matches Some(bits) ==> bits == 16 || bits >= 24,
    ensures
        forall|i: int| 0 <= i < t.len() ==> plays(spec_plan(source, target).output, #[trigger] t[i]),
{
    let output = spec_plan(source, target).output;
    lemma_table_codecs_distinct(t);
    assert forall|i: int| 0 <= i < t.len() implies plays(output, #[trigger] t[i]) by {
        let fs = t[i].formats@;
        lemma_rows_for_distinct(fs, Codec::PcmAiff);
        lemma_plays_iff(output, t[i]);
        let rows = rows_for(fs, Codec::PcmAiff);
        assert(fs[3].codec == Codec::PcmAiff);
        assert(rows == seq![fs[3]]);
        let rates = fs[3].sample_rates_hz@;
        assert(rates[0] == 44_100u32 || rates[1] == 44_100u32);
        assert(rates[1] == 48_000u32 || rates[2] == 48_000u32);
        assert(rows[0].sample_rates_hz@.contains(output.sample_rate_hz));
        assert(rate_admitted(rows, output.sample_rate_hz));
        if output.bit_depth is Some {
            let bits = output.bit_depth->0;
            assert(fs[3].bit_depths@[0] == 16u8 && fs[3].bit_depths@[1] == 24u8);
            assert(rows[0].bit_depths@.contains(bits));
            assert(depth_admitted(rows, bits));
        }
    }
}

} // verus!

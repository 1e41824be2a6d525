use transcrate::compat::{AudioSpec, Issue, check};
use transcrate::device::{Codec, by_id, devices};

fn lossless(codec: Codec, sample_rate_hz: u32) -> AudioSpec {
    AudioSpec {
        codec,
        sample_rate_hz,
        bit_depth: Some(24),
        bitrate_kbps: None,
    }
}

#[test]
fn codec_absent_from_the_table_is_reported_once() {
    let rr = by_id("xdj-rr").expect("xdj-rr");
    let issues = check(&lossless(Codec::Flac, 96_000), &rr);
    assert_eq!(issues, vec![Issue::CodecUnsupported { codec: Codec::Flac }]);
}

#[test]
fn supported_codec_above_its_rate_limit_is_reported() {
    let rx3 = by_id("xdj-rx3").expect("xdj-rx3");
    let issues = check(&lossless(Codec::Flac, 96_000), &rx3);
    assert_eq!(
        issues,
        vec![Issue::SampleRateUnsupported {
            codec: Codec::Flac,
            requested_hz: 96_000
        }]
    );
}

#[test]
fn alac_is_distinguished_from_aac_in_the_same_container() {
    let rx3 = by_id("xdj-rx3").expect("xdj-rx3");
    assert_eq!(
        check(&lossless(Codec::Alac, 44_100), &rx3),
        vec![Issue::CodecUnsupported { codec: Codec::Alac }]
    );
    assert!(
        check(
            &AudioSpec {
                codec: Codec::AacLc,
                sample_rate_hz: 44_100,
                bit_depth: None,
                bitrate_kbps: Some(320),
            },
            &rx3
        )
        .is_empty()
    );
}

#[test]
fn thirty_two_bit_is_rejected_by_every_player() {
    let spec = AudioSpec {
        codec: Codec::PcmWav,
        sample_rate_hz: 44_100,
        bit_depth: Some(32),
        bitrate_kbps: None,
    };
    for device in &devices() {
        assert_eq!(
            check(&spec, device),
            vec![Issue::BitDepthUnsupported {
                codec: Codec::PcmWav,
                requested_bits: 32
            }],
            "{} accepted 32-bit",
            device.id
        );
    }
}

#[test]
fn bitrate_above_the_documented_ceiling_is_reported() {
    let cdj_3000 = by_id("cdj-3000").expect("cdj-3000");
    let spec = AudioSpec {
        codec: Codec::Mp3,
        sample_rate_hz: 44_100,
        bit_depth: None,
        bitrate_kbps: Some(400),
    };
    assert_eq!(
        check(&spec, &cdj_3000),
        vec![Issue::BitrateOutOfRange {
            codec: Codec::Mp3,
            requested_kbps: 400,
            allowed_kbps: (32, 320),
        }]
    );
}

#[test]
fn independent_faults_are_all_reported() {
    let rr = by_id("xdj-rr").expect("xdj-rr");
    let spec = AudioSpec {
        codec: Codec::PcmWav,
        sample_rate_hz: 96_000,
        bit_depth: Some(32),
        bitrate_kbps: None,
    };
    assert_eq!(
        check(&spec, &rr),
        vec![
            Issue::SampleRateUnsupported {
                codec: Codec::PcmWav,
                requested_hz: 96_000
            },
            Issue::BitDepthUnsupported {
                codec: Codec::PcmWav,
                requested_bits: 32
            },
        ]
    );
}

#[test]
fn cdj_safe_mp3_clears_every_player() {
    let spec = AudioSpec {
        codec: Codec::Mp3,
        sample_rate_hz: 44_100,
        bit_depth: None,
        bitrate_kbps: Some(320),
    };
    for device in &devices() {
        assert!(
            check(&spec, device).is_empty(),
            "{} rejected the default profile: {:?}",
            device.id,
            check(&spec, device)
        );
    }
}

#[test]
fn a_supported_stream_has_nothing_to_report() {
    let cdj_3000 = by_id("cdj-3000").expect("cdj-3000");
    assert!(check(&lossless(Codec::Flac, 96_000), &cdj_3000).is_empty());
}

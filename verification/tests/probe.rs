use transcrate::compat::AudioSpec;
use transcrate::device::Codec;
use transcrate::probe::{
    PROBE_ARGS, ProbeError, ProbeOutput, ProbeStream, classify, interpret, parse_unsigned,
};

const FLAC_96K_24BIT: &str = r#"{"programs":[],"stream_groups":[],"streams":[{"codec_name":"flac","sample_rate":"96000","bits_per_sample":0,"bits_per_raw_sample":"24"}],"format":{"format_name":"flac"}}"#;

const ALAC_IN_M4A: &str = r#"{"programs":[],"stream_groups":[],"streams":[{"codec_name":"alac","sample_rate":"44100","bits_per_sample":0,"bit_rate":"5440","bits_per_raw_sample":"16"}],"format":{"format_name":"mov,mp4,m4a,3gp,3g2,mj2"}}"#;

const AAC_IN_M4A: &str = r#"{"programs":[],"stream_groups":[],"streams":[{"codec_name":"aac","profile":"LC","sample_rate":"44100","bits_per_sample":0,"bit_rate":"121319"}],"format":{"format_name":"mov,mp4,m4a,3gp,3g2,mj2"}}"#;

const HE_AAC_IN_M4A: &str = r#"{"programs":[],"stream_groups":[],"streams":[{"codec_name":"aac","profile":"HE-AAC","sample_rate":"44100","bits_per_sample":0,"bit_rate":"39804"}],"format":{"format_name":"mov,mp4,m4a,3gp,3g2,mj2"}}"#;

const WAV_FLOAT32_48K: &str = r#"{"programs":[],"stream_groups":[],"streams":[{"codec_name":"pcm_f32le","sample_rate":"48000","bits_per_sample":32,"bit_rate":"3072000"}],"format":{"format_name":"wav"}}"#;

const AIFF_16BIT_44K: &str = r#"{"programs":[],"stream_groups":[],"streams":[{"codec_name":"pcm_s16be","sample_rate":"44100","bits_per_sample":16,"bit_rate":"1411200"}],"format":{"format_name":"aiff"}}"#;

const MP3_CBR_320: &str = r#"{"programs":[],"stream_groups":[],"streams":[{"codec_name":"mp3","sample_rate":"44100","bits_per_sample":0,"bit_rate":"320000"}],"format":{"format_name":"mp3"}}"#;

fn text(value: &serde_json::Value, key: &str) -> Option<String> {
    value.get(key).and_then(|v| v.as_str()).map(str::to_owned)
}

/// The fixture read into the report shape, then interpreted.
fn parse(json: &str) -> Result<AudioSpec, ProbeError> {
    let value: serde_json::Value =
        serde_json::from_str(json).map_err(|error| ProbeError::Malformed(error.to_string()))?;
    let streams = value
        .get("streams")
        .and_then(|s| s.as_array())
        .map(|streams| {
            streams
                .iter()
                .map(|stream| ProbeStream {
                    codec_name: text(stream, "codec_name").expect("codec_name"),
                    profile: text(stream, "profile"),
                    sample_rate: text(stream, "sample_rate").expect("sample_rate"),
                    bits_per_raw_sample: text(stream, "bits_per_raw_sample"),
                    bits_per_sample: stream
                        .get("bits_per_sample")
                        .and_then(|v| v.as_u64())
                        .map(|bits| u8::try_from(bits).expect("bits fit")),
                    bit_rate: text(stream, "bit_rate"),
                })
                .collect()
        })
        .unwrap_or_default();
    let format_name = value
        .get("format")
        .and_then(|format| text(format, "format_name"))
        .expect("format_name");
    interpret(&ProbeOutput {
        streams,
        format_name,
    })
}

#[test]
fn bit_depth_comes_from_the_raw_sample_field() {
    let spec = parse(FLAC_96K_24BIT).expect("parse flac");
    assert_eq!(spec.codec, Codec::Flac);
    assert_eq!(spec.sample_rate_hz, 96_000);
    assert_eq!(spec.bit_depth, Some(24));
}

#[test]
fn alac_and_aac_are_told_apart_inside_the_same_container() {
    assert_eq!(parse(ALAC_IN_M4A).expect("parse alac").codec, Codec::Alac);
    assert_eq!(parse(AAC_IN_M4A).expect("parse aac").codec, Codec::AacLc);
}

#[test]
fn only_the_low_complexity_aac_profile_is_taken_as_aac() {
    assert_eq!(parse(AAC_IN_M4A).expect("parse aac lc").codec, Codec::AacLc);

    let refused = parse(HE_AAC_IN_M4A).expect_err("he-aac must not parse as aac-lc");
    assert!(
        matches!(&refused, ProbeError::UnsupportedCodec(name) if name.contains("HE-AAC")),
        "the profile has to be named, or the message reads as a contradiction: {}",
        refused.message()
    );
}

#[test]
fn float32_keeps_its_real_depth() {
    let spec = parse(WAV_FLOAT32_48K).expect("parse float wav");
    assert_eq!(spec.codec, Codec::PcmWav);
    assert_eq!(spec.bit_depth, Some(32));
}

#[test]
fn pcm_is_assigned_to_its_container() {
    assert_eq!(
        parse(AIFF_16BIT_44K).expect("parse aiff").codec,
        Codec::PcmAiff
    );
    assert_eq!(
        parse(WAV_FLOAT32_48K).expect("parse wav").codec,
        Codec::PcmWav
    );
}

#[test]
fn the_request_covers_every_field_the_parser_reads() {
    let rendered = PROBE_ARGS.join(" ");
    for field in [
        "codec_name",
        "profile",
        "sample_rate",
        "bits_per_raw_sample",
        "bits_per_sample",
        "bit_rate",
        "format_name",
    ] {
        assert!(rendered.contains(field), "PROBE_ARGS omits {field}");
    }
}

#[test]
fn lossy_reports_kbps_and_no_depth() {
    let spec = parse(MP3_CBR_320).expect("parse mp3");
    assert_eq!(spec.codec, Codec::Mp3);
    assert_eq!(spec.bitrate_kbps, Some(320));
    assert_eq!(spec.bit_depth, None);
}

#[test]
fn a_report_without_a_stream_is_no_audio() {
    let empty = ProbeOutput {
        streams: Vec::new(),
        format_name: "mp3".to_owned(),
    };
    assert_eq!(interpret(&empty), Err(ProbeError::NoAudioStream));
    assert_eq!(
        ProbeError::NoAudioStream.message(),
        "the file contains no audio stream"
    );
}

#[test]
fn a_rate_that_is_not_a_number_is_named() {
    let output = ProbeOutput {
        streams: vec![ProbeStream {
            codec_name: "flac".to_owned(),
            profile: None,
            sample_rate: "fast".to_owned(),
            bits_per_raw_sample: None,
            bits_per_sample: None,
            bit_rate: None,
        }],
        format_name: "flac".to_owned(),
    };
    let refused = interpret(&output).expect_err("not a rate");
    assert_eq!(
        refused,
        ProbeError::UnreadableField {
            field: "sample_rate",
            value: "fast".to_owned()
        }
    );
    assert_eq!(
        refused.message(),
        "ffprobe reported an unreadable sample_rate: fast"
    );
}

#[test]
fn unsigned_numbers_are_read_as_str_parse_reads_them() {
    assert_eq!(parse_unsigned("44100", u32::MAX as u64), Some(44_100));
    assert_eq!(parse_unsigned("+7", 255), Some(7));
    assert_eq!(parse_unsigned("256", 255), None);
    assert_eq!(parse_unsigned("", 255), None);
    assert_eq!(parse_unsigned("4a", 255), None);
}

#[test]
fn a_lossless_codec_in_an_unknown_container_is_refused() {
    assert_eq!(classify("pcm_s16le", None, "ogg"), None);
    assert_eq!(classify("mp3", None, "mp3"), Some(Codec::Mp3));
}

#[test]
fn every_reading_failure_says_what_went_wrong() {
    assert_eq!(
        ProbeError::NotRunnable {
            reason: "not found".to_owned()
        }
        .message(),
        "could not run ffprobe: not found"
    );
    assert_eq!(
        ProbeError::Rejected {
            stderr: "bad".to_owned()
        }
        .message(),
        "ffprobe could not read the file: bad"
    );
    assert_eq!(
        ProbeError::Malformed("eof".to_owned()).message(),
        "ffprobe did not return valid JSON: eof"
    );
    assert_eq!(
        transcrate::probe::why_it_failed("\n", "exit status: 1"),
        "it wrote nothing and exited with exit status: 1"
    );
}

#[test]
fn any_bound_can_be_read_up_to() {
    assert_eq!(parse_unsigned("18446744073709551615", u64::MAX), Some(u64::MAX));
    assert_eq!(parse_unsigned("18446744073709551616", u64::MAX), None);
    assert_eq!(parse_unsigned("+4294967296", u64::MAX), Some(4_294_967_296));
    assert_eq!(parse_unsigned("4294967296", 0xffff_ffff), None);
}

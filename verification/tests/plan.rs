use transcrate::compat::{AudioSpec, check};
use transcrate::device::{Codec, devices};
use transcrate::plan::{
    Action, Artwork, BitDepthPolicy, MetadataPolicy, SampleRatePolicy, Target, encode_args, plan,
    sounds_thin,
};

fn wav(sample_rate_hz: u32, bits: u8) -> AudioSpec {
    AudioSpec {
        codec: Codec::PcmWav,
        sample_rate_hz,
        bit_depth: Some(bits),
        bitrate_kbps: None,
    }
}

fn aiff_at(bits: u8) -> Target {
    Target {
        codec: Codec::PcmAiff,
        sample_rate: SampleRatePolicy::Preserve,
        bit_depth: BitDepthPolicy::Fixed(bits),
        bitrate_kbps: None,
        metadata: MetadataPolicy::dj(),
    }
}

#[test]
fn a_format_alone_keeps_the_source_rate_and_depth() {
    let hi_res = AudioSpec {
        codec: Codec::Flac,
        sample_rate_hz: 96_000,
        bit_depth: Some(24),
        bitrate_kbps: None,
    };
    let output = plan(&hi_res, &Target::from_format("aiff").expect("aiff")).output;

    assert_eq!(output.codec, Codec::PcmAiff);
    assert_eq!(output.sample_rate_hz, 96_000);
    assert_eq!(output.bit_depth, Some(24));
}

#[test]
fn a_lossy_format_arrives_with_a_bitrate() {
    assert_eq!(
        Target::from_format("mp3").and_then(|t| t.bitrate_kbps),
        Some(320)
    );
    assert_eq!(
        Target::from_format("aac").and_then(|t| t.bitrate_kbps),
        Some(320)
    );
    assert_eq!(
        Target::from_format("flac").and_then(|t| t.bitrate_kbps),
        None
    );
}

#[test]
fn every_listed_format_resolves() {
    for name in Target::FORMATS {
        assert!(
            Target::from_format(name).is_some(),
            "{name} is listed but unknown"
        );
    }
    assert_eq!(Target::from_format("ogg"), None);
}

#[test]
fn the_built_in_profiles_resolve_by_name() {
    assert_eq!(Target::by_name("cdj-safe"), Some(Target::cdj_safe()));
    assert_eq!(
        Target::by_name("lossless").map(|t| t.codec),
        Some(Codec::PcmAiff)
    );
    assert_eq!(
        Target::by_name("archive").map(|t| t.codec),
        Some(Codec::Flac)
    );
    assert_eq!(Target::by_name("nope"), None);
}

#[test]
fn the_booth_profiles_clear_every_player() {
    let hi_res = AudioSpec {
        codec: Codec::Flac,
        sample_rate_hz: 96_000,
        bit_depth: Some(24),
        bitrate_kbps: None,
    };

    for name in ["cdj-safe", "lossless"] {
        let target = Target::by_name(name).expect(name);
        let output = plan(&hi_res, &target).output;

        for device in &devices() {
            let issues = check(&output, device);
            assert!(
                issues.is_empty(),
                "{name} fails on {}: {issues:?}",
                device.id
            );
        }
    }
}

#[test]
fn archive_preserves_the_source() {
    let hi_res = AudioSpec {
        codec: Codec::Flac,
        sample_rate_hz: 96_000,
        bit_depth: Some(24),
        bitrate_kbps: None,
    };
    let output = plan(&hi_res, &Target::by_name("archive").expect("archive")).output;

    assert_eq!(output.sample_rate_hz, 96_000);
    assert_eq!(output.bit_depth, Some(24));
}

fn already_cdj_safe() -> AudioSpec {
    AudioSpec {
        codec: Codec::Mp3,
        sample_rate_hz: 44_100,
        bit_depth: None,
        bitrate_kbps: Some(320),
    }
}

const UNTOUCHED: MetadataPolicy = MetadataPolicy {
    clear: &[],
    artwork: Artwork::Keep,
};

#[test]
fn a_file_that_needs_nothing_is_copied() {
    let target = Target {
        metadata: UNTOUCHED,
        ..Target::cdj_safe()
    };
    let plan = plan(&already_cdj_safe(), &target);

    assert_eq!(plan.action, Action::Copy);
    assert_eq!(plan.output, already_cdj_safe());
}

#[test]
fn a_file_needing_only_tag_changes_is_stream_copied() {
    let plan = plan(&already_cdj_safe(), &Target::cdj_safe());
    assert_eq!(plan.action, Action::Retag);

    let args = encode_args(&plan);
    assert!(
        pairs_contain(&args, "-c:a", "copy"),
        "audio should not be re-encoded to change a tag: {args:?}"
    );
    assert!(pairs_contain(&args, "-metadata", "comment="), "{args:?}");
    assert!(!args.iter().any(|arg| arg == "-b:a"), "{args:?}");
    assert!(!args.iter().any(|arg| arg == "-af"), "{args:?}");
}

#[test]
fn dropping_artwork_alone_is_enough_to_rewrite() {
    let target = Target {
        metadata: MetadataPolicy {
            clear: &[],
            artwork: Artwork::Remove,
        },
        ..Target::cdj_safe()
    };

    assert_eq!(plan(&already_cdj_safe(), &target).action, Action::Retag);
}

#[test]
fn hi_res_flac_becomes_the_default_mp3() {
    let source = AudioSpec {
        codec: Codec::Flac,
        sample_rate_hz: 96_000,
        bit_depth: Some(24),
        bitrate_kbps: None,
    };
    let plan = plan(&source, &Target::cdj_safe());

    assert_eq!(plan.output.codec, Codec::Mp3);
    assert_eq!(plan.output.sample_rate_hz, 44_100);
    assert_eq!(plan.output.bitrate_kbps, Some(320));
    assert_eq!(plan.action, Action::Encode { dither: false });
    assert_eq!(plan.output.bit_depth, None);
}

#[test]
fn reducing_bit_depth_dithers() {
    let plan = plan(&wav(44_100, 32), &aiff_at(24));

    assert_eq!(plan.output.bit_depth, Some(24));
    assert_eq!(plan.action, Action::Encode { dither: true });
}

#[test]
fn lengthening_bit_depth_does_not_dither() {
    let plan = plan(&wav(44_100, 16), &aiff_at(24));

    assert_eq!(plan.output.bit_depth, Some(24));
    assert_eq!(plan.action, Action::Encode { dither: false });
}

#[test]
fn resampling_alone_does_not_dither() {
    let target = Target {
        codec: Codec::PcmWav,
        sample_rate: SampleRatePolicy::CapAt(48_000),
        bit_depth: BitDepthPolicy::Preserve,
        bitrate_kbps: None,
        metadata: MetadataPolicy::dj(),
    };
    let plan = plan(&wav(96_000, 24), &target);

    assert_eq!(plan.output.sample_rate_hz, 48_000);
    assert_eq!(plan.output.bit_depth, Some(24));
    assert_eq!(plan.action, Action::Encode { dither: false });
}

fn pairs_contain(args: &[String], flag: &str, value: &str) -> bool {
    args.windows(2)
        .any(|pair| pair[0] == flag && pair[1] == value)
}

fn pair(args: &[String], flag: &str) -> Option<String> {
    args.windows(2)
        .find(|window| window[0] == flag)
        .map(|window| window[1].clone())
}

#[test]
fn pcm_encoders_follow_the_container_byte_order() {
    let to_aiff = plan(&wav(44_100, 24), &aiff_at(24));
    assert_eq!(
        pair(&encode_args(&to_aiff), "-c:a").as_deref(),
        Some("pcm_s24be")
    );

    let to_wav = plan(
        &wav(44_100, 24),
        &Target {
            codec: Codec::PcmWav,
            sample_rate: SampleRatePolicy::Preserve,
            bit_depth: BitDepthPolicy::Fixed(16),
            bitrate_kbps: None,
            metadata: MetadataPolicy::dj(),
        },
    );
    assert_eq!(
        pair(&encode_args(&to_wav), "-c:a").as_deref(),
        Some("pcm_s16le")
    );
}

fn flac_source() -> AudioSpec {
    AudioSpec {
        codec: Codec::Flac,
        sample_rate_hz: 96_000,
        bit_depth: Some(24),
        bitrate_kbps: None,
    }
}

#[test]
fn artwork_is_carried_across_with_its_stream_tags_set() {
    let args = encode_args(&plan(&flac_source(), &Target::cdj_safe()));

    assert!(pairs_contain(&args, "-map", "0:v?"), "{args:?}");
    assert!(pairs_contain(&args, "-c:v", "copy"), "{args:?}");
    assert!(
        args.iter().any(|arg| arg.contains("Album cover")),
        "artwork stream is not labelled: {args:?}"
    );
}

#[test]
fn the_comment_can_be_kept() {
    let kept = MetadataPolicy::keeping_comments();
    assert!(!kept.clear.contains(&"comment"), "{:?}", kept.clear);
    assert!(kept.clear.contains(&"lyrics-eng"), "{:?}", kept.clear);

    let target = Target {
        metadata: kept,
        ..Target::cdj_safe()
    };
    let args = encode_args(&plan(&flac_source(), &target));

    assert!(!pairs_contain(&args, "-metadata", "comment="), "{args:?}");
    assert!(pairs_contain(&args, "-metadata", "lyrics-eng="), "{args:?}");
}

#[test]
fn the_listed_tag_fields_are_emptied() {
    let args = encode_args(&plan(&flac_source(), &Target::cdj_safe()));

    assert!(pairs_contain(&args, "-metadata", "comment="), "{args:?}");
    assert!(pairs_contain(&args, "-metadata", "lyrics-eng="), "{args:?}");
}

#[test]
fn mp3_is_tagged_as_id3v2_3() {
    let args = encode_args(&plan(&flac_source(), &Target::cdj_safe()));
    assert!(pairs_contain(&args, "-id3v2_version", "3"), "{args:?}");
}

#[test]
fn aiff_is_told_to_write_id3_in_the_first_place() {
    let args = encode_args(&plan(&flac_source(), &Target::lossless()));

    assert!(pairs_contain(&args, "-write_id3v2", "1"), "{args:?}");
    assert!(pairs_contain(&args, "-id3v2_version", "3"), "{args:?}");
}

#[test]
fn formats_without_id3_are_not_told_about_it() {
    let args = encode_args(&plan(&flac_source(), &Target::archive()));
    assert!(!args.iter().any(|arg| arg.contains("id3")), "{args:?}");
}

#[test]
fn removing_artwork_leaves_the_stream_unmapped() {
    let target = Target {
        metadata: MetadataPolicy {
            artwork: Artwork::Remove,
            ..Target::cdj_safe().metadata
        },
        ..Target::cdj_safe()
    };
    let args = encode_args(&plan(&flac_source(), &target));

    assert!(!args.iter().any(|arg| arg == "0:v?"), "{args:?}");
    assert!(
        !args.iter().any(|arg| arg.contains("Album cover")),
        "{args:?}"
    );
}

#[test]
fn mp3_carries_its_encoder_bitrate_and_rate() {
    let source = AudioSpec {
        codec: Codec::Flac,
        sample_rate_hz: 96_000,
        bit_depth: Some(24),
        bitrate_kbps: None,
    };
    let args = encode_args(&plan(&source, &Target::cdj_safe()));

    assert_eq!(pair(&args, "-c:a").as_deref(), Some("libmp3lame"));
    assert_eq!(pair(&args, "-b:a").as_deref(), Some("320k"));
    assert_eq!(pair(&args, "-ar").as_deref(), Some("44100"));
}

#[test]
fn dither_is_requested_only_when_the_word_shortens() {
    let shortening = encode_args(&plan(&wav(44_100, 32), &aiff_at(24)));
    assert!(
        shortening.iter().any(|arg| arg.contains("dither_method")),
        "got: {shortening:?}"
    );

    let lengthening = encode_args(&plan(&wav(44_100, 16), &aiff_at(24)));
    assert!(
        !lengthening.iter().any(|arg| arg.contains("dither")),
        "got: {lengthening:?}"
    );
}

#[test]
fn every_encode_is_single_threaded() {
    let args = encode_args(&plan(&wav(96_000, 24), &aiff_at(16)));
    assert_eq!(pair(&args, "-threads").as_deref(), Some("1"));
}

#[test]
fn progress_is_reported_on_stdout() {
    let args = encode_args(&plan(&wav(96_000, 24), &aiff_at(16)));
    assert_eq!(pair(&args, "-progress").as_deref(), Some("pipe:1"));
    assert!(args.iter().any(|arg| arg == "-nostats"));
}

#[test]
fn a_ceiling_does_not_raise_a_lower_rate() {
    let target = Target {
        codec: Codec::PcmWav,
        sample_rate: SampleRatePolicy::CapAt(48_000),
        bit_depth: BitDepthPolicy::Preserve,
        bitrate_kbps: None,
        metadata: UNTOUCHED,
    };
    let plan = plan(&wav(44_100, 24), &target);

    assert_eq!(plan.output.sample_rate_hz, 44_100);
    assert_eq!(plan.action, Action::Copy);
}

#[test]
fn a_lossy_source_is_never_encoded_above_its_bitrate() {
    let thin = AudioSpec {
        codec: Codec::Mp3,
        sample_rate_hz: 44_100,
        bit_depth: None,
        bitrate_kbps: Some(128),
    };
    let plan = plan(&thin, &Target::cdj_safe());
    assert_eq!(plan.output.bitrate_kbps, Some(128));
    assert!(sounds_thin(&thin));
    assert!(!sounds_thin(&already_cdj_safe()));
}

#[test]
fn keeping_a_format_only_rewrites_tags() {
    let target = Target::keeping(&flac_source(), MetadataPolicy::dj());
    let plan = plan(&flac_source(), &target);
    assert_eq!(plan.output, flac_source());
    assert_eq!(plan.action, Action::Retag);
}

#[test]
fn the_options_open_on_the_audio_and_close_on_progress() {
    let encode = encode_args(&plan(&flac_source(), &Target::cdj_safe()));
    let retag = encode_args(&plan(&already_cdj_safe(), &Target::cdj_safe()));

    for args in [&encode, &retag] {
        assert_eq!(&args[..2], ["-map", "0:a:0"], "{args:?}");
        assert_eq!(&args[args.len() - 3..], ["-nostats", "-progress", "pipe:1"], "{args:?}");
    }
    assert!(pairs_contain(&encode, "-threads", "1"), "{encode:?}");
    assert!(pairs_contain(&encode, "-b:a", "320k"), "{encode:?}");
    assert!(!retag.iter().any(|arg| arg == "-threads"), "{retag:?}");
    assert!(!retag.iter().any(|arg| arg == "-b:a"), "{retag:?}");
}

use pharos_server::stream::{
    api_key_query_value, audio_remux_args, audio_universal, authorize_media,
    byte_offset_from_ticks, codec_relative_index, is_current, last_modified, not_modified,
    parse_audio_codec_list, parse_max_audio_channels, parse_max_streaming_bitrate,
    parse_start_time_ticks, range_status, remux_bitrate, remux_format, AudioPlan, Credentials,
    TICKS_PER_SECOND,
};

#[test]
fn audio_remux_args_seek_is_input_option() {
    let args = audio_remux_args(
        "/m.mkv",
        "aac",
        "adts",
        192_000,
        Some(2),
        60 * TICKS_PER_SECOND, // 60s
        "60.000",
    );
    let joined = args.join(" ");
    let ss = args.iter().position(|a| a == "-ss").expect("-ss present");
    let i = args.iter().position(|a| a == "-i").expect("-i present");
    assert!(ss < i, "-ss must precede -i (input seek): {joined}");
    assert_eq!(args[ss + 1], "60.000", "seek seconds: {joined}");
    assert!(joined.contains("-ac 2"), "downmix preserved: {joined}");
}

#[test]
fn audio_remux_args_no_seek_at_zero() {
    let args = audio_remux_args("/m.mkv", "aac", "adts", 192_000, None, 0, "0.000");
    assert!(!args.iter().any(|a| a == "-ss"), "no input seek at ticks 0: {args:?}");
    assert!(!args.iter().any(|a| a == "-ac"), "no downmix when channels None: {args:?}");
}

#[test]
fn byte_offset_from_ticks_uses_bitrate_when_available() {
    // 1 Mbps = 125_000 bytes/s, and 10_000_000 ticks are a second.
    assert_eq!(
        byte_offset_from_ticks(10_000_000, Some(1_000_000), Some(60_000), None),
        Some(125_000)
    );
}

#[test]
fn byte_offset_from_ticks_falls_back_to_size_over_duration() {
    // 60_000_000 bytes in 60 s: a second is 1_000_000 bytes.
    assert_eq!(
        byte_offset_from_ticks(10_000_000, None, Some(60_000), Some(60_000_000)),
        Some(1_000_000)
    );
}

#[test]
fn byte_offset_zero_returns_zero() {
    assert_eq!(byte_offset_from_ticks(0, Some(1_000_000), Some(60_000), None), Some(0));
}

#[test]
fn parse_start_time_ticks_handles_case_insensitive() {
    assert_eq!(parse_start_time_ticks("StartTimeTicks=12345"), 12345);
    assert_eq!(parse_start_time_ticks("starttimeticks=42"), 42);
    assert_eq!(parse_start_time_ticks("api_key=abc&StartTimeTicks=99"), 99);
    assert_eq!(parse_start_time_ticks(""), 0);
    assert_eq!(parse_start_time_ticks("foo=bar"), 0);
    assert_eq!(parse_start_time_ticks("StartTimeTicks=notanumber"), 0);
}

#[test]
fn parse_audio_codec_list_csv() {
    assert_eq!(parse_audio_codec_list("AudioCodec=aac,mp3,opus"), vec!["aac", "mp3", "opus"]);
    assert_eq!(parse_audio_codec_list("audiocodec=aac"), vec!["aac"]);
    assert!(parse_audio_codec_list("").is_empty());
    assert!(parse_audio_codec_list("foo=bar").is_empty());
    // Whitespace-trim + drop empty entries.
    assert_eq!(parse_audio_codec_list("AudioCodec= aac , , mp3 "), vec!["aac", "mp3"]);
}

#[test]
fn parse_max_audio_channels_extracts_numeric_value() {
    assert_eq!(parse_max_audio_channels("MaxAudioChannels=2"), Some(2));
    assert_eq!(parse_max_audio_channels("maxaudiochannels=6"), Some(6));
    assert_eq!(parse_max_audio_channels(""), None);
    assert_eq!(parse_max_audio_channels("MaxAudioChannels=abc"), None);
}

#[test]
fn parse_max_streaming_bitrate_extracts_numeric_value() {
    assert_eq!(parse_max_streaming_bitrate("MaxStreamingBitrate=128000"), Some(128_000));
    assert_eq!(parse_max_streaming_bitrate("maxstreamingbitrate=1500000"), Some(1_500_000));
    assert_eq!(parse_max_streaming_bitrate(""), None);
    assert_eq!(parse_max_streaming_bitrate("MaxStreamingBitrate=abc"), None);
}

#[test]
fn tracks_are_numbered_among_their_own() {
    assert_eq!(codec_relative_index(&[1, 2, 5], 5), Some(2));
    assert_eq!(codec_relative_index(&[1, 2, 5], 3), None);
}

#[test]
fn the_key_in_the_query_counts_under_both_names() {
    assert_eq!(api_key_query_value("api_key=abc"), Some("abc".to_string()));
    assert_eq!(api_key_query_value("ApiKey=xyz&foo=1"), Some("xyz".to_string()));
    assert_eq!(api_key_query_value("foo=1"), None);
}

#[test]
fn http_dates_are_written_and_read() {
    // The standard's own example.
    assert_eq!(last_modified(Some(784_111_777)), Some("Sun, 06 Nov 1994 08:49:37 GMT".to_string()));
    assert_eq!(last_modified(None), None);
    let since = Some("Sun, 06 Nov 1994 08:49:37 GMT".to_string());
    assert!(not_modified(&since, 784_111_777, false));
    assert!(!not_modified(&since, 784_111_778, false));
    assert!(!not_modified(&Some("yesterday".to_string()), 784_111_777, false));
    assert!(!not_modified(&None, 784_111_777, false));
    assert!(is_current(Some(10), 10, false));
    assert!(!is_current(Some(9), 10, false));
}

#[test]
fn a_range_is_always_partial() {
    assert_eq!(range_status(true, 200, true), 206);
    assert_eq!(range_status(false, 200, false), 200);
    assert_eq!(range_status(true, 416, false), 416);
}

#[test]
fn remuxing_has_its_formats() {
    let opus = remux_format("OPUS").unwrap();
    assert_eq!((opus.encoder, opus.muxer, opus.content_type), ("libopus", "ogg", "audio/ogg"));
    let refused = remux_format("WMAv2").unwrap_err();
    assert_eq!(refused.status(), 400);
    assert_eq!(refused.message(), "unsupported audio remux target: wmav2");
    assert_eq!(remux_bitrate(None), 192_000);
    assert_eq!(remux_bitrate(Some(64_000)), 64_000);
}

#[test]
fn a_track_the_client_plays_is_not_remuxed() {
    assert!(matches!(
        audio_universal("AudioCodec=flac,mp3", &Some("flac".to_string()), Some(2)),
        AudioPlan::Direct
    ));
}

#[test]
fn audio_is_encoded_to_the_first_codec_that_can_be() {
    let target = |qs: &str, channels: u32| {
        match audio_universal(qs, &Some("flac".to_string()), Some(channels)) {
            AudioPlan::Remux { target, .. } => Some(target),
            AudioPlan::Direct => None,
        }
    };
    assert_eq!(target("AudioCodec=mp3,opus", 2), Some("mp3".to_string()));
    assert_eq!(target("AudioCodec=wma,Opus,aac", 2), Some("Opus".to_string()));
    assert_eq!(target("AudioCodec=wma", 2), Some("aac".to_string()));
    assert_eq!(target("AudioCodec=flac,mp3&MaxAudioChannels=2", 6), Some("mp3".to_string()));
    assert_eq!(target("MaxAudioChannels=2", 6), Some("aac".to_string()));
    assert_eq!(target("", 2), None);
}

#[test]
fn media_needs_a_credential() {
    let nothing = Credentials {
        token_valid: false,
        tag_media_id: Some(8),
        play_session_media_id: None,
    };
    assert_eq!(authorize_media(&nothing, 7).unwrap_err().status(), 401);
    // A capability opens the item that it stands for.
    assert!(authorize_media(&nothing, 8).is_ok());
    let token = Credentials { token_valid: true, tag_media_id: None, play_session_media_id: None };
    assert!(authorize_media(&token, 7).is_ok());
}

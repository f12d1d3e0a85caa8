use mediasherlock::summary::{audio_line, lines_to_text, summary_line, video_line};
use mediasherlock::{summarize, RawReport, RawTrack, RawValue, TrackKind};

fn track(fields: &[(&str, &str)]) -> RawTrack {
    let mut track = RawTrack::new();
    for (name, text) in fields {
        track.set_text(name, text);
    }
    track
}

fn sample_video() -> RawTrack {
    track(&[
        ("@type", "Video"),
        ("CodecID", "V_MPEG4/ISO/AVC"),
        ("Width", "1920"),
        ("Height", "1080"),
        ("DisplayAspectRatio", "1.778"),
        ("FrameRate", "23.976"),
        ("BitRate", "5000000"),
    ])
}

fn sample_audio() -> RawTrack {
    track(&[
        ("@type", "Audio"),
        ("CodecID", "A_AAC"),
        ("SamplingRate", "48000"),
        ("Channels", "2"),
        ("BitRate", "128000"),
    ])
}

#[test]
fn one_video_and_one_audio_track() {
    let report = RawReport::with_tracks(vec![sample_video(), sample_audio()]);
    let summary = summarize(&report);
    assert_eq!(
        summary.video_lines(),
        &vec!["MPEG4/ISO/AVC, 1920x1080p, 16:9, 23.976 FPS, 5000 kb/s".to_string()]
    );
    assert_eq!(summary.audio_lines(), &vec!["AAC, 48000 kHz, 2 ch, 128 kb/s".to_string()]);
}

#[test]
fn empty_track_list_gives_the_sentinels() {
    let summary = summarize(&RawReport::with_tracks(Vec::new()));
    assert_eq!(summary.video_lines(), &vec!["No video track found".to_string()]);
    assert_eq!(summary.audio_lines(), &vec!["No audio track found".to_string()]);
}

#[test]
fn missing_track_list_gives_the_sentinels() {
    let summary = summarize(&RawReport::without_tracks());
    assert_eq!(summary.video_lines(), &vec!["No video track found".to_string()]);
    assert_eq!(summary.audio_lines(), &vec!["No audio track found".to_string()]);
}

#[test]
fn unparsable_bit_rate_is_kept_in_the_line() {
    let mut video = sample_video();
    video.set_text("BitRate", "abc");
    assert_eq!(video_line(&video), "MPEG4/ISO/AVC, 1920x1080p, 16:9, 23.976 FPS, abc");
    let mut audio = sample_audio();
    audio.set_text("BitRate", "abc");
    assert_eq!(audio_line(&audio), "AAC, 48000 kHz, 2 ch, abc");
}

#[test]
fn both_lists_always_hold_a_line() {
    let reports = vec![
        RawReport::without_tracks(),
        RawReport::with_tracks(Vec::new()),
        RawReport::with_tracks(vec![sample_video()]),
        RawReport::with_tracks(vec![sample_audio()]),
        RawReport::with_tracks(vec![RawTrack::new(), track(&[("@type", "Text")])]),
        RawReport::with_tracks(vec![sample_audio(), sample_video(), sample_audio()]),
    ];
    for report in reports {
        let summary = summarize(&report);
        assert!(summary.video_lines().len() >= 1);
        assert!(summary.audio_lines().len() >= 1);
    }
}

#[test]
fn only_video_gives_the_audio_sentinel() {
    let summary = summarize(&RawReport::with_tracks(vec![sample_video()]));
    assert_eq!(summary.video_lines().len(), 1);
    assert_eq!(summary.audio_lines(), &vec!["No audio track found".to_string()]);
}

#[test]
fn only_audio_gives_the_video_sentinel() {
    let summary = summarize(&RawReport::with_tracks(vec![sample_audio()]));
    assert_eq!(summary.video_lines(), &vec!["No video track found".to_string()]);
    assert_eq!(summary.audio_lines().len(), 1);
}

#[test]
fn missing_fields_become_the_placeholder() {
    let video = track(&[("@type", "Video")]);
    assert_eq!(video_line(&video), "N/A, N/AxN/Ap, N/A, N/A FPS, N/A");
    let audio = track(&[("@type", "Audio")]);
    assert_eq!(audio_line(&audio), "N/A, N/A kHz, N/A ch, N/A");
}

#[test]
fn field_that_is_no_text_becomes_the_placeholder() {
    let mut video = sample_video();
    video.set("Width", RawValue::Other);
    video.set("BitRate", RawValue::Other);
    assert_eq!(video.field("Width"), "N/A");
    assert_eq!(video.get("Width"), Some(&RawValue::Other));
    assert_eq!(video_line(&video), "MPEG4/ISO/AVC, N/Ax1080p, 16:9, 23.976 FPS, N/A");
}

#[test]
fn field_is_read_by_its_exact_name() {
    let video = sample_video();
    assert_eq!(video.field("CodecID"), "V_MPEG4/ISO/AVC");
    assert_eq!(video.field("codecid"), "N/A");
    assert_eq!(video.field("Codec"), "N/A");
    assert_eq!(video.field(""), "N/A");
    assert_eq!(video.get("Channels"), None);
    assert_eq!(video.get("Height"), Some(&RawValue::Text("1080".to_string())));
}

#[test]
fn later_value_of_a_field_counts() {
    let mut video = sample_video();
    video.set_text("Width", "1280");
    video.set_text("Height", "720");
    assert_eq!(video.field("Width"), "1280");
    assert_eq!(video_line(&video), "MPEG4/ISO/AVC, 1280x720p, 16:9, 23.976 FPS, 5000 kb/s");
}

#[test]
fn kind_is_read_from_the_kind_field() {
    assert_eq!(sample_video().kind(), Some(TrackKind::Video));
    assert_eq!(sample_audio().kind(), Some(TrackKind::Audio));
    assert_eq!(RawTrack::new().kind(), None);
    assert_eq!(track(&[("@type", "Text")]).kind(), None);
    assert_eq!(track(&[("@type", "General")]).kind(), None);
    assert_eq!(track(&[("@type", "video")]).kind(), None);
    assert_eq!(track(&[("@type", "N/A")]).kind(), None);
    assert_eq!(track(&[("type", "Video")]).kind(), None);
    let mut untyped = sample_video();
    untyped.set("@type", RawValue::Other);
    assert_eq!(untyped.kind(), None);
}

#[test]
fn tracks_are_sorted_by_kind_in_report_order() {
    let tracks = vec![
        track(&[("@type", "General"), ("CodecID", "g")]),
        track(&[("@type", "Audio"), ("CodecID", "a1")]),
        track(&[("@type", "Video"), ("CodecID", "v1")]),
        track(&[("CodecID", "untyped")]),
        track(&[("@type", "Audio"), ("CodecID", "a2")]),
        track(&[("@type", "Video"), ("CodecID", "v2")]),
        track(&[("@type", "Audio"), ("CodecID", "a3")]),
    ];
    let report = RawReport::with_tracks(tracks);
    let (video, audio) = report.classify();
    let video_codecs: Vec<&str> = video.iter().map(|t| t.field("CodecID")).collect();
    let audio_codecs: Vec<&str> = audio.iter().map(|t| t.field("CodecID")).collect();
    assert_eq!(video_codecs, vec!["v1", "v2"]);
    assert_eq!(audio_codecs, vec!["a1", "a2", "a3"]);
}

#[test]
fn report_without_tracks_sorts_into_nothing() {
    let report = RawReport::without_tracks();
    let (video, audio) = report.classify();
    assert!(video.is_empty());
    assert!(audio.is_empty());
}

#[test]
fn lines_keep_the_order_of_the_report() {
    let tracks = vec![
        track(&[("@type", "Audio"), ("CodecID", "A_first"), ("BitRate", "64000")]),
        track(&[("@type", "Menu")]),
        track(&[("@type", "Video"), ("CodecID", "V_one")]),
        track(&[("@type", "Audio"), ("CodecID", "A_second"), ("BitRate", "x")]),
        track(&[("@type", "Video"), ("CodecID", "V_two")]),
    ];
    let summary = summarize(&RawReport::with_tracks(tracks));
    assert_eq!(
        summary.video_lines(),
        &vec![
            "one, N/AxN/Ap, N/A, N/A FPS, N/A".to_string(),
            "two, N/AxN/Ap, N/A, N/A FPS, N/A".to_string(),
        ]
    );
    assert_eq!(
        summary.audio_lines(),
        &vec![
            "first, N/A kHz, N/A ch, 64 kb/s".to_string(),
            "second, N/A kHz, N/A ch, x".to_string(),
        ]
    );
}

#[test]
fn only_the_codec_loses_its_markers() {
    let video = track(&[
        ("@type", "Video"),
        ("CodecID", "V_MPEG4"),
        ("Width", "V_1"),
        ("FrameRate", "A_25"),
        ("BitRate", "A_bc"),
    ]);
    assert_eq!(video_line(&video), "MPEG4, V_1xN/Ap, N/A, A_25 FPS, A_bc");
}

#[test]
fn frame_rate_is_shown_in_full() {
    let mut video = sample_video();
    video.set_text("FrameRate", "29.970030");
    assert_eq!(video_line(&video), "MPEG4/ISO/AVC, 1920x1080p, 16:9, 29.970030 FPS, 5000 kb/s");
}

#[test]
fn unlisted_ratio_is_kept_in_the_line() {
    let mut video = sample_video();
    video.set_text("DisplayAspectRatio", "1.234");
    assert_eq!(video_line(&video), "MPEG4/ISO/AVC, 1920x1080p, 1.234, 23.976 FPS, 5000 kb/s");
}

#[test]
fn line_follows_the_kind_that_is_asked_for() {
    let video = sample_video();
    assert_eq!(summary_line(&video, TrackKind::Video), video_line(&video));
    assert_eq!(summary_line(&video, TrackKind::Audio), audio_line(&video));
    assert_eq!(
        summary_line(&video, TrackKind::Audio),
        "MPEG4/ISO/AVC, N/A kHz, N/A ch, 5000 kb/s"
    );
}

#[test]
fn summary_text_has_one_line_per_entry() {
    let report = RawReport::with_tracks(vec![sample_video(), sample_audio(), sample_audio()]);
    let summary = summarize(&report);
    assert_eq!(
        summary.to_text(),
        "MPEG4/ISO/AVC, 1920x1080p, 16:9, 23.976 FPS, 5000 kb/s\n\
         AAC, 48000 kHz, 2 ch, 128 kb/s\n\
         AAC, 48000 kHz, 2 ch, 128 kb/s\n"
    );
    let empty = summarize(&RawReport::without_tracks());
    assert_eq!(empty.to_text(), "No video track found\nNo audio track found\n");
}

#[test]
fn lines_are_written_video_first() {
    let video = vec!["v1".to_string(), "v2".to_string()];
    let audio = vec!["a1".to_string()];
    assert_eq!(lines_to_text(&video, &audio), "v1\nv2\na1\n");
    assert_eq!(lines_to_text(&Vec::new(), &audio), "a1\n");
    assert_eq!(lines_to_text(&video, &Vec::new()), "v1\nv2\n");
    assert_eq!(lines_to_text(&Vec::new(), &Vec::new()), "");
}

#[test]
fn copies_stand_for_the_same_values() {
    let video = sample_video();
    let copy = video.clone();
    assert_eq!(video_line(&copy), video_line(&video));
    assert_eq!(copy.get("Width"), video.get("Width"));
    assert_eq!(RawValue::Other.clone(), RawValue::Other);
    assert_eq!(RawValue::Text("x".to_string()).clone(), RawValue::Text("x".to_string()));
    let report = RawReport::with_tracks(vec![sample_video(), sample_audio()]);
    let summary = summarize(&report);
    assert_eq!(summarize(&report.clone()), summary);
    assert_eq!(summary.clone(), summary);
    assert_eq!(summarize(&RawReport::without_tracks().clone()).video_lines().len(), 1);
}

#[test]
fn summary_gives_up_its_lines() {
    let report = RawReport::with_tracks(vec![sample_video(), sample_audio()]);
    let (video, audio) = summarize(&report).into_lines();
    assert_eq!(video, vec!["MPEG4/ISO/AVC, 1920x1080p, 16:9, 23.976 FPS, 5000 kb/s"]);
    assert_eq!(audio, vec!["AAC, 48000 kHz, 2 ch, 128 kb/s"]);
}

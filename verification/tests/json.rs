use mediasherlock::json::{report_from_json, track_from_json};
use mediasherlock::{read_report, summarize, summarize_json, RawValue, ReportError, TrackKind};

const SAMPLE: &str = r#"{
    "creatingLibrary": {"name": "MediaInfoLib", "version": "23.04"},
    "media": {
        "@ref": "movie.mkv",
        "track": [
            {"@type": "General", "Format": "Matroska", "BitRate": "5128000"},
            {
                "@type": "Video",
                "CodecID": "V_MPEG4/ISO/AVC",
                "Width": "1920",
                "Height": "1080",
                "DisplayAspectRatio": "1.778",
                "FrameRate": "23.976",
                "BitRate": "5000000"
            },
            {
                "@type": "Audio",
                "CodecID": "A_AAC",
                "SamplingRate": "48000",
                "Channels": "2",
                "BitRate": "128000"
            }
        ]
    }
}"#;

fn lines(text: &str) -> (Vec<String>, Vec<String>) {
    summarize_json(text).into_lines()
}

fn sentinels() -> (Vec<String>, Vec<String>) {
    (vec!["No video track found".to_string()], vec!["No audio track found".to_string()])
}

#[test]
fn probe_output_is_summarized() {
    let (video, audio) = lines(SAMPLE);
    assert_eq!(video, vec!["MPEG4/ISO/AVC, 1920x1080p, 16:9, 23.976 FPS, 5000 kb/s"]);
    assert_eq!(audio, vec!["AAC, 48000 kHz, 2 ch, 128 kb/s"]);
}

#[test]
fn json_with_empty_track_list_gives_the_sentinels() {
    assert_eq!(lines(r#"{"media": {"track": []}}"#), sentinels());
}

#[test]
fn json_of_another_shape_gives_the_sentinels() {
    for text in [
        "{}",
        "null",
        "[]",
        "17",
        r#""media""#,
        r#"{"media": null}"#,
        r#"{"media": []}"#,
        r#"{"media": {}}"#,
        r#"{"media": {"track": null}}"#,
        r#"{"media": {"track": {"@type": "Video"}}}"#,
        r#"{"media": {"track": "Video"}}"#,
        r#"{"track": [{"@type": "Video"}]}"#,
        r#"{"Media": {"track": [{"@type": "Video"}]}}"#,
    ] {
        assert_eq!(lines(text), sentinels(), "for {}", text);
    }
}

#[test]
fn text_that_is_no_json_gives_the_sentinels() {
    for text in ["not json", "", "{", r#"{"media": }"#, r#"{"media": {"track": []}} trailing"#] {
        assert_eq!(lines(text), sentinels(), "for {}", text);
    }
    let cut_short = &SAMPLE[..SAMPLE.len() - 1];
    assert_eq!(lines(cut_short), sentinels());
}

#[test]
fn text_that_is_no_json_is_an_error_to_the_reader() {
    for text in ["not json", "", "{", r#"{"media": }"#, r#"{"media": {"track": []}} trailing"#] {
        assert!(matches!(read_report(text), Err(ReportError::InvalidJson)), "for {}", text);
    }
    assert!(read_report("{}").is_ok());
    assert!(read_report("17").is_ok());
}

#[test]
fn report_is_read_track_by_track() {
    let report = read_report(SAMPLE).unwrap();
    let (video, audio) = report.classify();
    assert_eq!(video.len(), 1);
    assert_eq!(audio.len(), 1);
    assert_eq!(video[0].kind(), Some(TrackKind::Video));
    assert_eq!(video[0].field("CodecID"), "V_MPEG4/ISO/AVC");
    assert_eq!(video[0].field("Width"), "1920");
    assert_eq!(audio[0].field("SamplingRate"), "48000");
    assert_eq!(audio[0].field("Width"), "N/A");
}

#[test]
fn json_field_that_is_no_text_becomes_the_placeholder() {
    let text = r#"{"media": {"track": [
        {"@type": "Video", "CodecID": "V_VP9", "Width": 1920, "Height": null,
         "DisplayAspectRatio": ["1.778"], "FrameRate": {"num": 25}, "BitRate": true}
    ]}}"#;
    let (video, audio) = lines(text);
    assert_eq!(video, vec!["VP9, N/AxN/Ap, N/A, N/A FPS, N/A"]);
    assert_eq!(audio, sentinels().1);
    let report = read_report(text).unwrap();
    let (tracks, _) = report.classify();
    assert_eq!(tracks[0].get("Width"), Some(&RawValue::Other));
    assert_eq!(tracks[0].get("Height"), Some(&RawValue::Other));
    assert_eq!(tracks[0].get("Channels"), None);
    assert_eq!(tracks[0].get("CodecID"), Some(&RawValue::Text("V_VP9".to_string())));
}

#[test]
fn json_track_without_a_kind_is_dropped() {
    let text = r#"{"media": {"track": [
        {"CodecID": "V_VP9"},
        {"@type": 1, "CodecID": "V_AV1"},
        {"@type": "Text", "CodecID": "S_TEXT/UTF8"},
        17,
        "Video",
        ["@type", "Video"],
        null,
        {"@type": "Audio", "CodecID": "A_OPUS", "BitRate": "96000"}
    ]}}"#;
    let (video, audio) = lines(text);
    assert_eq!(video, sentinels().0);
    assert_eq!(audio, vec!["OPUS, N/A kHz, N/A ch, 96 kb/s"]);
}

#[test]
fn json_tracks_keep_their_order() {
    let text = r#"{"media": {"track": [
        {"@type": "Audio", "CodecID": "A_one"},
        {"@type": "Video", "CodecID": "V_two"},
        {"@type": "Audio", "CodecID": "A_three"},
        {"@type": "Video", "CodecID": "V_four"}
    ]}}"#;
    let (video, audio) = lines(text);
    assert_eq!(
        video,
        vec!["two, N/AxN/Ap, N/A, N/A FPS, N/A", "four, N/AxN/Ap, N/A, N/A FPS, N/A"]
    );
    assert_eq!(audio, vec!["one, N/A kHz, N/A ch, N/A", "three, N/A kHz, N/A ch, N/A"]);
}

#[test]
fn json_track_is_read_field_by_field() {
    let value: serde_json::Value = serde_json::from_str(
        r#"{"@type": "Audio", "CodecID": "A_AAC", "Channels": 2, "Language": "en"}"#,
    )
    .unwrap();
    let track = track_from_json(&value);
    assert_eq!(track.kind(), Some(TrackKind::Audio));
    assert_eq!(track.get("CodecID"), Some(&RawValue::Text("A_AAC".to_string())));
    assert_eq!(track.get("Channels"), Some(&RawValue::Other));
    assert_eq!(track.get("BitRate"), None);
    assert_eq!(track.get("Language"), None);
}

#[test]
fn json_document_is_read_as_a_report() {
    let value: serde_json::Value = serde_json::from_str(SAMPLE).unwrap();
    let summary = summarize(&report_from_json(&value));
    assert_eq!(summary, summarize_json(SAMPLE));
    let none: serde_json::Value = serde_json::from_str("[1, 2]").unwrap();
    let report = report_from_json(&none);
    let (video, audio) = report.classify();
    assert!(video.is_empty() && audio.is_empty());
}

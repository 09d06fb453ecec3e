use tidemark::timefmt::{format_duration_hhmmss, normalize_time_to_hhmmss, parse_time_to_seconds};
use tidemark::download::{validate_time_range, DownloadConfig, TimeRange, VideoInfo};

fn config_with_range(start: Option<&str>, end: Option<&str>, duration: Option<i64>) -> DownloadConfig {
    DownloadConfig {
        url: "https://example.invalid/v".to_string(),
        video_info: VideoInfo {
            id: "id".to_string(),
            title: "t".to_string(),
            channel: "c".to_string(),
            thumbnail: String::new(),
            duration,
            platform: "youtube".to_string(),
            content_type: "video".to_string(),
            is_live: false,
            qualities: Vec::new(),
        },
        format_id: "best".to_string(),
        content_type: "video+audio".to_string(),
        video_codec: None,
        audio_codec: None,
        output_filename: "out.mp4".to_string(),
        output_folder: "/tmp".to_string(),
        container_format: "auto".to_string(),
        time_range: Some(TimeRange {
            start: start.map(|s| s.to_string()),
            end: end.map(|s| s.to_string()),
        }),
    }
}

#[test]
fn parses_bare_seconds() {
    assert_eq!(parse_time_to_seconds("90"), Ok(90));
    assert_eq!(parse_time_to_seconds("  42  "), Ok(42));
    assert_eq!(parse_time_to_seconds("0"), Ok(0));
}

#[test]
fn parses_minutes_and_seconds() {
    assert_eq!(parse_time_to_seconds("1:30"), Ok(90));
    assert_eq!(parse_time_to_seconds("10:05"), Ok(605));
}

#[test]
fn parses_hours_minutes_seconds() {
    assert_eq!(parse_time_to_seconds("01:02:03"), Ok(3723));
    assert_eq!(parse_time_to_seconds("2:00:00"), Ok(7200));
}

#[test]
fn rejects_malformed_times() {
    assert_eq!(parse_time_to_seconds("abc"), Err("請輸入有效時間格式".to_string()));
    assert_eq!(parse_time_to_seconds("1:2:3:4"), Err("請輸入有效時間格式".to_string()));
    assert_eq!(parse_time_to_seconds("1:xx"), Err("無效的時間格式".to_string()));
    assert_eq!(parse_time_to_seconds(""), Err("請輸入有效時間格式".to_string()));
}

#[test]
fn normalises_seconds_to_clock_form() {
    assert_eq!(normalize_time_to_hhmmss(3723), "01:02:03");
    assert_eq!(normalize_time_to_hhmmss(0), "00:00:00");
    assert_eq!(normalize_time_to_hhmmss(7325), "02:02:05");
    assert_eq!(normalize_time_to_hhmmss(359999), "99:59:59");
}

#[test]
fn formats_durations() {
    assert_eq!(format_duration_hhmmss(0), "00:00:00");
    assert_eq!(format_duration_hhmmss(61), "00:01:01");
    assert_eq!(format_duration_hhmmss(3600), "01:00:00");
    assert_eq!(format_duration_hhmmss(86399), "23:59:59");
}

#[test]
fn parse_then_normalise_is_idempotent_on_canonical_form() {
    for s in ["00:00:00", "01:02:03", "12:34:56", "99:59:59"] {
        let v = parse_time_to_seconds(s).unwrap();
        assert_eq!(normalize_time_to_hhmmss(v), s);
        let again = parse_time_to_seconds(&normalize_time_to_hhmmss(v)).unwrap();
        assert_eq!(again, v);
    }
}

#[test]
fn rejects_range_whose_end_is_not_after_start() {
    let cfg = config_with_range(Some("10"), Some("10"), None);
    assert_eq!(validate_time_range(&cfg), Err("結束時間必須晚於開始時間".to_string()));
    let cfg = config_with_range(Some("0:20"), Some("10"), None);
    assert_eq!(validate_time_range(&cfg), Err("結束時間必須晚於開始時間".to_string()));
}

#[test]
fn rejects_range_beyond_duration() {
    let cfg = config_with_range(Some("10"), Some("120"), Some(100));
    assert_eq!(validate_time_range(&cfg), Err("時間超出影片長度".to_string()));
    let cfg = config_with_range(Some("150"), Some("200"), Some(100));
    assert_eq!(validate_time_range(&cfg), Err("時間超出影片長度".to_string()));
}

#[test]
fn accepts_well_formed_range() {
    let cfg = config_with_range(Some("10"), Some("90"), Some(100));
    assert_eq!(validate_time_range(&cfg), Ok(()));
    let cfg = config_with_range(Some("00:10"), Some("01:30"), None);
    assert_eq!(validate_time_range(&cfg), Ok(()));
    let cfg = config_with_range(None, None, Some(5));
    assert_eq!(validate_time_range(&cfg), Ok(()));
}

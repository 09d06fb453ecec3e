use tidemark::download::{
    build_download_args, build_recording_args, container_ext, join_output_path,
    output_filename_with_ext, quality_to_format, DownloadConfig, TimeRange, VideoInfo,
};
use tidemark::recorder::{
    classify_recording_exit, count_active_statuses, parse_recording_progress,
    parse_ytdlp_progress, post_process_recording, RecStatus, RecordingExit,
};
use tidemark::template::expand_filename_template;

fn config(platform: &str, container: &str, time_range: Option<TimeRange>) -> DownloadConfig {
    DownloadConfig {
        url: "https://www.youtube.com/watch?v=abcdefghijk".to_string(),
        video_info: VideoInfo {
            id: "abcdefghijk".to_string(),
            title: "t".to_string(),
            channel: "c".to_string(),
            thumbnail: String::new(),
            duration: None,
            platform: platform.to_string(),
            content_type: "video".to_string(),
            is_live: false,
            qualities: Vec::new(),
        },
        format_id: "bestvideo+bestaudio/best".to_string(),
        content_type: "video+audio".to_string(),
        video_codec: None,
        audio_codec: None,
        output_filename: "out.mp4".to_string(),
        output_folder: "/tmp/downloads".to_string(),
        container_format: container.to_string(),
        time_range,
    }
}

#[test]
fn quality_maps_to_format_selectors() {
    assert_eq!(quality_to_format("best", "video+audio"), "bestvideo+bestaudio/best");
    assert_eq!(
        quality_to_format("1080p", "video+audio"),
        "bestvideo[height<=1080]+bestaudio/best[height<=1080]"
    );
    assert_eq!(
        quality_to_format("720p", "video+audio"),
        "bestvideo[height<=720]+bestaudio/best[height<=720]"
    );
    assert_eq!(
        quality_to_format("480p", "video+audio"),
        "bestvideo[height<=480]+bestaudio/best[height<=480]"
    );
    assert_eq!(
        quality_to_format("360p", "video+audio"),
        "bestvideo[height<=360]+bestaudio/best[height<=360]"
    );
    assert_eq!(quality_to_format("whatever", "video+audio"), "bestvideo+bestaudio/best");
    // Audio-only overrides every quality selector.
    assert_eq!(quality_to_format("1080p", "audio_only"), "bestaudio");
}

#[test]
fn container_extension_defaults_to_transport_stream() {
    assert_eq!(container_ext("mp4"), "mp4");
    assert_eq!(container_ext("mkv"), "mkv");
    assert_eq!(container_ext("auto"), "ts");
    assert_eq!(container_ext("weird"), "ts");
    assert_eq!(output_filename_with_ext("alpha_20240601", "mkv"), "alpha_20240601.mkv");
}

#[test]
fn template_expansion_is_plain_substitution() {
    let r = expand_filename_template(
        "{channel_name}_{date}_{datetime}_{type}_{title}",
        "alpha",
        "twitch",
        "20240601",
        "20240601_120000",
    );
    assert_eq!(r, "alpha_20240601_20240601_120000_Twitch直播_alpha_direct_stream");
    let r = expand_filename_template("{type}", "x", "youtube", "d", "dt");
    assert_eq!(r, "YouTube直播");
    let r = expand_filename_template("{type}", "x", "other", "d", "dt");
    assert_eq!(r, "直播");
    // Identical inputs render identical names.
    let a = expand_filename_template("{channel_name}-{date}", "a", "twitch", "d", "dt");
    let b = expand_filename_template("{channel_name}-{date}", "a", "twitch", "d", "dt");
    assert_eq!(a, b);
}

#[test]
fn download_args_follow_the_fixed_order() {
    let cfg = config("youtube", "mp4", Some(TimeRange {
        start: Some("10".to_string()),
        end: Some("90".to_string()),
    }));
    let args = build_download_args(&cfg, Some("/tmp/cookies.txt".to_string()));
    assert_eq!(
        args,
        vec![
            "--newline",
            "--progress",
            "-f",
            "bestvideo+bestaudio/best",
            "-o",
            "/tmp/downloads/out.mp4",
            "--cookies",
            "/tmp/cookies.txt",
            "--download-sections",
            "*00:00:10-00:01:30",
            "--remux-video",
            "mp4",
            "https://www.youtube.com/watch?v=abcdefghijk",
        ]
    );
}

#[test]
fn cookies_are_only_passed_for_youtube_sources() {
    let cfg = config("twitch", "auto", None);
    let args = build_download_args(&cfg, Some("/tmp/cookies.txt".to_string()));
    assert_eq!(
        args,
        vec![
            "--newline",
            "--progress",
            "-f",
            "bestvideo+bestaudio/best",
            "-o",
            "/tmp/downloads/out.mp4",
            "https://www.youtube.com/watch?v=abcdefghijk",
        ]
    );
}

#[test]
fn recording_args_capture_from_the_start() {
    let cfg = config("youtube", "auto", None);
    let args = build_recording_args(&cfg, None);
    assert_eq!(
        args,
        vec![
            "--newline",
            "--progress",
            "-f",
            "bestvideo+bestaudio/best",
            "-o",
            "/tmp/downloads/out.mp4",
            "--live-from-start",
            "https://www.youtube.com/watch?v=abcdefghijk",
        ]
    );
}

#[test]
fn paths_join_with_a_single_separator() {
    assert_eq!(join_output_path("/tmp/downloads", "a.mp4"), "/tmp/downloads/a.mp4");
    assert_eq!(join_output_path("/tmp/downloads/", "a.mp4"), "/tmp/downloads/a.mp4");
    assert_eq!(join_output_path("", "a.mp4"), "a.mp4");
}

#[test]
fn vod_progress_lines_parse_exactly() {
    let r = parse_ytdlp_progress("[download]  45.2% of 123.45MiB at 2.34MiB/s ETA 00:23");
    let (pct, speed, eta) = r.unwrap();
    assert_eq!(pct, "45.2");
    assert_eq!(speed, "2.34MiB/s");
    assert_eq!(eta, "00:23");

    let r = parse_ytdlp_progress("[download] 100% of 5.00MiB at 1.00MiB/s ETA 00:00");
    let (pct, speed, eta) = r.unwrap();
    assert_eq!(pct, "100");
    assert_eq!(speed, "1.00MiB/s");
    assert_eq!(eta, "00:00");

    assert!(parse_ytdlp_progress("[youtube] extracting").is_none());
    assert!(parse_ytdlp_progress("[download] Destination: out.mp4").is_none());
    assert!(parse_ytdlp_progress("no marker at all").is_none());
}

#[test]
fn live_progress_lines_parse_into_bytes() {
    let r = parse_recording_progress("[download]  1.23MiB at 256.00KiB/s");
    let (bytes, bitrate) = r.unwrap();
    assert_eq!(bytes, 1048576 + 23 * 1048576 / 100);
    assert_eq!(bitrate, "256.00KiB/s");

    let r = parse_recording_progress("[download] 2KiB at 1KiB/s");
    let (bytes, bitrate) = r.unwrap();
    assert_eq!(bytes, 2048);
    assert_eq!(bitrate, "1KiB/s");

    let r = parse_recording_progress("[download] 1.5GiB at 3.00MiB/s");
    let (bytes, _) = r.unwrap();
    assert_eq!(bytes, 1073741824 + 5 * 1073741824 / 10);

    assert!(parse_recording_progress("[download]  45.2% of x at y ETA z").is_none());
    assert!(parse_recording_progress("plain text").is_none());
}

#[test]
fn interrupted_streams_are_told_apart_from_failures() {
    assert_eq!(classify_recording_exit(true, None), RecordingExit::Completed);
    assert_eq!(
        classify_recording_exit(false, Some("ERROR: Stream ended before download")),
        RecordingExit::StreamInterrupted
    );
    assert_eq!(
        classify_recording_exit(false, Some("lost connection to host")),
        RecordingExit::StreamInterrupted
    );
    assert_eq!(
        classify_recording_exit(false, Some("keyboard interrupt")),
        RecordingExit::StreamInterrupted
    );
    assert_eq!(
        classify_recording_exit(false, Some("unrelated diagnostics")),
        RecordingExit::Failed
    );
    assert_eq!(classify_recording_exit(false, None), RecordingExit::Failed);
}

#[test]
fn post_check_never_fabricates_a_file() {
    let p = "/tmp/out.mp4".to_string();
    assert_eq!(post_process_recording(&p, true), Some("/tmp/out.mp4".to_string()));
    assert_eq!(post_process_recording(&p, false), None);
}

#[test]
fn active_statuses_count_against_the_cap() {
    let ss = vec![
        RecStatus::Queued,
        RecStatus::Downloading,
        RecStatus::Recording,
        RecStatus::Processing,
        RecStatus::Completed,
        RecStatus::Failed,
        RecStatus::Cancelled,
        RecStatus::Paused,
        RecStatus::StreamInterrupted,
    ];
    assert_eq!(count_active_statuses(&ss), 3);
    assert_eq!(count_active_statuses(&Vec::new()), 0);
}

#[test]
fn disk_space_is_blocks_times_block_size() {
    assert_eq!(tidemark::config::check_disk_space(0, 1024, 4096), Ok(4194304));
    assert_eq!(tidemark::config::check_disk_space(0, 0, 4096), Ok(0));
    assert_eq!(tidemark::config::check_disk_space(0, u64::MAX, 2), Ok(u64::MAX));
    assert_eq!(
        tidemark::config::check_disk_space(-1, 1, 1),
        Err("statvfs failed (code -1)".to_string())
    );
}

#[test]
fn recording_map_transitions() {
    let mut map = tidemark::recorder::RecordingTasks::new();
    map.insert_task("dl-1".to_string(), RecStatus::Recording);
    map.insert_task("dl-2".to_string(), RecStatus::Downloading);
    assert_eq!(count_active_statuses(&map.statuses()), 2);

    map.pause_download("dl-1").unwrap();
    assert!(map.entries[0].paused);
    assert!(map.entries[0].status == RecStatus::Paused);
    assert_eq!(count_active_statuses(&map.statuses()), 1);

    map.resume_download("dl-1").unwrap();
    assert!(!map.entries[0].paused);
    assert!(map.entries[0].status == RecStatus::Downloading);

    assert!(map.stop_recording("dl-2"));
    assert!(map.entries[1].status == RecStatus::Processing);

    map.cancel_download("dl-1").unwrap();
    assert!(map.entries[0].status == RecStatus::Cancelled);
    assert_eq!(
        map.cancel_download("missing"),
        Err("找不到下載任務".to_string())
    );
    assert!(map.set_status("dl-2", RecStatus::Completed));
    assert!(!map.set_status("missing", RecStatus::Completed));
}

#[test]
fn recording_admission_requires_a_live_source() {
    assert!(tidemark::download::check_recording_source(true).is_ok());
    assert_eq!(
        tidemark::download::check_recording_source(false),
        Err("此影片不是直播".to_string())
    );
}

use tidemark::auth::{api_key_test_result, import_youtube_cookies_content, AuthConfig};
use tidemark::config::{
    default_close_behavior, default_clip_offset, default_download_folder, default_hardware_encoder,
    default_language, default_max_concurrent_downloads, default_max_retry_count,
    default_output_container, default_scheduled_download_notification, default_subtitle_folder,
    default_theme, default_timezone, default_trigger_cooldown, default_true, default_video_quality,
    default_youtube_polling_interval, notify_plan, AppConfig,
};
use tidemark::records::{delete_record, search_records, uncategorize_folder, update_record, Record};
use tidemark::tools::{
    encoders_from_output, extract_version_token, pause_menu_label, strip_v_prefix,
    update_status_from_release, MonitoringFlags,
};
use tidemark::urls::{classify_channel_url, parse_url, ContentType, Platform};

fn record(id: &str, title: &str, topic: &str, url: &str) -> Record {
    Record {
        id: id.to_string(),
        timestamp: "ts".to_string(),
        live_time: "lt".to_string(),
        title: title.to_string(),
        topic: topic.to_string(),
        folder_id: Some("f1".to_string()),
        channel_url: url.to_string(),
        platform: "twitch".to_string(),
        sort_order: 0,
    }
}

#[test]
fn recognises_video_links() {
    let p = parse_url("https://www.youtube.com/watch?v=abcdefghijk").unwrap();
    assert_eq!(p.platform, Platform::YouTube);
    assert_eq!(p.content_type, ContentType::Video);
    assert_eq!(p.id, "abcdefghijk");

    let p = parse_url(" https://youtu.be/AbCdEfGhIjK ").unwrap();
    assert_eq!(p.platform, Platform::YouTube);
    assert_eq!(p.content_type, ContentType::Video);
    assert_eq!(p.id, "AbCdEfGhIjK");

    let p = parse_url("https://www.youtube.com/live/abcdefghijk").unwrap();
    assert_eq!(p.platform, Platform::YouTube);
    assert_eq!(p.content_type, ContentType::Stream);
    assert_eq!(p.id, "abcdefghijk");
}

#[test]
fn recognises_twitch_links() {
    let p = parse_url("https://www.twitch.tv/videos/123456789").unwrap();
    assert_eq!(p.platform, Platform::Twitch);
    assert_eq!(p.content_type, ContentType::Video);
    assert_eq!(p.id, "123456789");

    let p = parse_url("https://www.twitch.tv/somecaster/clip/FunnyClipName-123").unwrap();
    assert_eq!(p.platform, Platform::Twitch);
    assert_eq!(p.content_type, ContentType::Clip);
    assert_eq!(p.id, "FunnyClipName-123");

    let p = parse_url("https://clips.twitch.tv/AnotherClip_42").unwrap();
    assert_eq!(p.platform, Platform::Twitch);
    assert_eq!(p.content_type, ContentType::Clip);
    assert_eq!(p.id, "AnotherClip_42");

    let p = parse_url("https://www.twitch.tv/somecaster").unwrap();
    assert_eq!(p.platform, Platform::Twitch);
    assert_eq!(p.content_type, ContentType::Stream);
    assert_eq!(p.id, "somecaster");

    let p = parse_url("https://www.twitch.tv/somecaster/").unwrap();
    assert_eq!(p.content_type, ContentType::Stream);
    assert_eq!(p.id, "somecaster");
}

#[test]
fn rejects_unsupported_links() {
    for link in ["https://example.com/video/1", "https://www.youtube.com/watch?v=short"] {
        match parse_url(link) {
            Err(e) => assert_eq!(e, "不支援的連結格式"),
            Ok(_) => panic!("expected a refusal for {}", link),
        }
    }
}

#[test]
fn classifies_channel_pages() {
    let (platform, login) = classify_channel_url("https://www.youtube.com/@somehandle").unwrap();
    assert_eq!(platform, Platform::YouTube);
    assert_eq!(login, None);

    let (platform, login) = classify_channel_url("https://www.twitch.tv/somecaster").unwrap();
    assert_eq!(platform, Platform::Twitch);
    assert_eq!(login, Some("somecaster".to_string()));

    assert_eq!(
        classify_channel_url("https://example.com/whoever"),
        Err("無法辨識此頻道".to_string())
    );
}

#[test]
fn channel_identity_falls_back_to_the_login() {
    let info = tidemark::urls::channel_info_from_fields(
        Platform::Twitch,
        None,
        None,
        Some("somecaster".to_string()),
    )
    .unwrap();
    assert_eq!(info.channel_id, "somecaster");
    assert_eq!(info.channel_name, "somecaster");
    assert_eq!(info.platform, "twitch");

    let info = tidemark::urls::channel_info_from_fields(
        Platform::YouTube,
        Some("UCxyz".to_string()),
        None,
        None,
    )
    .unwrap();
    assert_eq!(info.channel_id, "UCxyz");
    assert_eq!(info.channel_name, "Unknown");
    assert_eq!(info.platform, "youtube");

    let missing = tidemark::urls::channel_info_from_fields(Platform::Twitch, None, None, None);
    match missing {
        Err(e) => assert_eq!(e, "無法辨識此頻道"),
        Ok(_) => panic!("expected a refusal"),
    }
}

#[test]
fn twitch_metadata_is_synthesised() {
    let v = tidemark::download::fetch_twitch_info(&ContentType::Video, "123").unwrap();
    assert_eq!(v.title, "Twitch VOD 123");
    assert_eq!(v.channel, "Unknown Channel");
    assert!(!v.is_live);
    assert_eq!(v.qualities.len(), 2);
    assert_eq!(v.qualities[0].format_id, "source");
    assert_eq!(v.qualities[1].format_id, "720p60");

    let v = tidemark::download::fetch_twitch_info(&ContentType::Stream, "somecaster").unwrap();
    assert_eq!(v.title, "直播：somecaster");
    assert_eq!(v.channel, "somecaster");
    assert!(v.is_live);
    assert_eq!(v.qualities.len(), 1);

    let v = tidemark::download::fetch_twitch_info(&ContentType::Clip, "c1").unwrap();
    assert_eq!(v.title, "Twitch Clip c1");
    assert!(!v.is_live);
}

#[test]
fn defaults_match_the_documented_values() {
    assert_eq!(default_download_folder(), "~/Tidemark/Downloads");
    assert_eq!(default_subtitle_folder(), "~/Tidemark/Downloads");
    assert!(default_true());
    assert_eq!(default_language(), "繁體中文");
    assert_eq!(default_timezone(), "System");
    assert_eq!(default_video_quality(), "Highest");
    assert_eq!(default_output_container(), "Auto");
    assert_eq!(default_max_concurrent_downloads(), 3);
    assert_eq!(default_max_retry_count(), 3);
    assert_eq!(default_theme(), "system");
    assert_eq!(default_clip_offset(), 10);
    assert_eq!(default_hardware_encoder(), "auto");
    assert_eq!(default_close_behavior(), "minimize_to_tray");
    assert_eq!(default_youtube_polling_interval(), 90);
    assert_eq!(default_trigger_cooldown(), 300);
    assert_eq!(default_scheduled_download_notification(), "both");
    let cfg = AppConfig::default();
    assert_eq!(cfg.max_concurrent_downloads, 3);
    assert_eq!(cfg.trigger_cooldown, 300);
    assert_eq!(cfg.youtube_polling_interval, 90);
    assert!(cfg.auto_start_monitoring);
    assert!(!cfg.enable_scheduled_downloads);
}

#[test]
fn notifications_route_by_mode() {
    assert_eq!(notify_plan("none"), (false, false));
    assert_eq!(notify_plan("os"), (true, false));
    assert_eq!(notify_plan("toast"), (false, true));
    assert_eq!(notify_plan("both"), (true, true));
    assert_eq!(notify_plan("anything"), (false, false));
}

#[test]
fn provider_keys_store_and_clear() {
    let mut auth = AuthConfig::empty();
    auth.set_provider_key("openai", "sk-one".to_string()).unwrap();
    assert_eq!(auth.provider_key("openai").unwrap(), Some("sk-one".to_string()));
    auth.set_provider_key("openai", String::new()).unwrap();
    assert_eq!(auth.provider_key("openai").unwrap(), None);
    assert_eq!(
        auth.set_provider_key("other", "x".to_string()),
        Err("Unknown provider: other".to_string())
    );
    auth.set_tokens(Some("tok".to_string()), Some("/tmp/c.txt".to_string()));
    auth.set_api_keys(None, Some("gq".to_string()), None);
    assert_eq!(auth.twitch_token, Some("tok".to_string()));
    assert_eq!(auth.provider_key("groq").unwrap(), Some("gq".to_string()));
}

#[test]
fn api_key_probe_results_map_exactly() {
    let r = api_key_test_result(true, true, Some("已用 1 / 2".to_string()), String::new());
    assert!(r.success);
    assert_eq!(r.message, "連線成功");
    assert_eq!(r.quota_info, Some("已用 1 / 2".to_string()));
    let r = api_key_test_result(true, false, None, String::new());
    assert!(!r.success);
    assert_eq!(r.message, "API Key 無效");
    let r = api_key_test_result(false, false, None, "timed out".to_string());
    assert!(!r.success);
    assert_eq!(r.message, "連線失敗: timed out");
}

#[test]
fn cookie_files_are_recognised_by_header_or_shape() {
    assert!(import_youtube_cookies_content("# Netscape HTTP Cookie File\n"));
    assert!(import_youtube_cookies_content("# HTTP Cookie File\nwhatever"));
    assert!(import_youtube_cookies_content(
        ".youtube.com\tTRUE\t/\tTRUE\t0\tNAME\tvalue\n"
    ));
    assert!(!import_youtube_cookies_content("just some text\nwith two lines"));
    assert!(!import_youtube_cookies_content(""));
    assert!(!import_youtube_cookies_content("# some other comment\n"));
}

#[test]
fn search_folds_case_and_blank_queries_return_everything() {
    let records = vec![
        record("1", "Morning Show", "news", "https://example.invalid/a"),
        record("2", "night stream", "games", "https://example.invalid/b"),
        record("3", "Other", "MORNING catchup", "https://example.invalid/c"),
    ];
    let hits = search_records(&records, "MORNING");
    let ids: Vec<&str> = hits.iter().map(|r| r.id.as_str()).collect();
    assert_eq!(ids, vec!["1", "3"]);
    let hits = search_records(&records, "  ");
    assert_eq!(hits.len(), 3);
    let hits = search_records(&records, "example.invalid/b");
    assert_eq!(hits.len(), 1);
    assert_eq!(hits[0].id, "2");
}

#[test]
fn record_list_operations_edit_in_place() {
    let mut records = vec![record("1", "a", "t", "u"), record("2", "b", "t", "u")];
    let mut changed = record("2", "b2", "t2", "u2");
    changed.folder_id = None;
    update_record(&mut records, changed).unwrap();
    assert_eq!(records[1].title, "b2");
    assert_eq!(
        update_record(&mut records, record("9", "x", "t", "u")),
        Err("Record not found".to_string())
    );
    uncategorize_folder(&mut records, "f1");
    assert_eq!(records[0].folder_id, None);
    delete_record(&mut records, "1");
    assert_eq!(records.len(), 1);
    assert_eq!(records[0].id, "2");
}

#[test]
fn version_banners_yield_their_third_token() {
    assert_eq!(
        extract_version_token("ffmpeg version 5.1.2 Copyright (c) 2000-2022\nbuilt with gcc"),
        Some("5.1.2".to_string())
    );
    assert_eq!(extract_version_token("too few"), None);
    assert_eq!(extract_version_token(""), None);
}

#[test]
fn release_tags_compare_after_stripping_the_marker() {
    assert_eq!(strip_v_prefix("v1.2.3"), "1.2.3");
    assert_eq!(strip_v_prefix("1.2.3"), "1.2.3");
    let st = update_status_from_release("1.2.3".to_string(), "v1.2.4", None, None);
    assert!(st.has_update);
    assert_eq!(st.latest_version, Some("1.2.4".to_string()));
    let st = update_status_from_release("1.2.3".to_string(), "v1.2.3", None, None);
    assert!(!st.has_update);
}

#[test]
fn encoders_list_starts_with_auto_and_follows_the_probe() {
    let out = encoders_from_output("... h264_nvenc ... hevc_qsv ...");
    assert_eq!(out, vec!["auto", "h264_nvenc", "hevc_qsv"]);
    assert_eq!(encoders_from_output("nothing here"), vec!["auto"]);
}

#[test]
fn operator_flags_toggle() {
    let mut flags = MonitoringFlags::new();
    assert!(!flags.get_monitoring_paused());
    flags.set_monitoring_paused(true);
    assert!(flags.get_monitoring_paused());
    assert_eq!(pause_menu_label(true), "恢復所有監聽");
    assert_eq!(pause_menu_label(false), "暫停所有監聽");
    flags.force_quit();
    assert!(flags.force_quit);
}

#[test]
fn scheduled_config_is_built_from_the_preset() {
    let preset = tidemark::presets::DownloadPreset {
        id: "p1".to_string(),
        channel_id: "123".to_string(),
        channel_name: "alpha".to_string(),
        platform: "twitch".to_string(),
        enabled: true,
        quality: "720p".to_string(),
        content_type: "video+audio".to_string(),
        output_dir: "~/captures".to_string(),
        filename_template: "{channel_name}_{date}".to_string(),
        container_format: "mkv".to_string(),
        created_at: "c".to_string(),
        last_triggered_at: None,
        trigger_count: 0,
    };
    let task = tidemark::sched::ScheduledDownloadTask {
        id: "task-1".to_string(),
        preset_id: "p1".to_string(),
        channel_name: "alpha".to_string(),
        platform: "twitch".to_string(),
        stream_id: "twitch_123_t1".to_string(),
        stream_url: "https://www.twitch.tv/alpha".to_string(),
        status: tidemark::sched::TaskStatus::Downloading,
        triggered_at: "t".to_string(),
        triggered_epoch: 1000,
        started_at: None,
        completed_at: None,
        file_path: None,
        file_size: None,
        error_message: None,
        download_task_id: None,
    };
    let cfg = tidemark::download::make_scheduled_download_config(
        &preset,
        &task,
        Some("/home/user".to_string()),
        "20240601",
        "20240601_120000",
    );
    assert_eq!(cfg.url, task.stream_url);
    assert_eq!(cfg.output_folder, "/home/user/captures");
    assert_eq!(cfg.output_filename, "alpha_20240601.mkv");
    assert_eq!(cfg.format_id, "bestvideo[height<=720]+bestaudio/best[height<=720]");
    assert_eq!(cfg.video_info.title, "alpha 直播");
    assert!(cfg.video_info.is_live);
}

#[test]
fn history_rows_record_completion_precisely() {
    let cfg_src = tidemark::download::DownloadConfig {
        url: "u".to_string(),
        video_info: tidemark::download::VideoInfo {
            id: "i".to_string(),
            title: "t".to_string(),
            channel: "c".to_string(),
            thumbnail: String::new(),
            duration: None,
            platform: "twitch".to_string(),
            content_type: "stream".to_string(),
            is_live: true,
            qualities: Vec::new(),
        },
        format_id: "best".to_string(),
        content_type: "video+audio".to_string(),
        video_codec: None,
        audio_codec: None,
        output_filename: "o.ts".to_string(),
        output_folder: "/tmp".to_string(),
        container_format: "auto".to_string(),
        time_range: None,
    };
    let row = tidemark::download::make_history_entry(
        &cfg_src,
        "h1".to_string(),
        "/tmp/o.ts",
        "completed",
        None,
        Some(99),
        "now".to_string(),
    );
    assert_eq!(row.status, "completed");
    assert_eq!(row.file_path, Some("/tmp/o.ts".to_string()));
    assert_eq!(row.file_size, Some(99));
    assert_eq!(row.completed_at, Some("now".to_string()));

    // A stream cut short keeps its own status and no fabricated path.
    let row = tidemark::download::make_history_entry(
        &cfg_src,
        "h2".to_string(),
        "/tmp/o.ts",
        "stream_interrupted",
        Some("串流中斷".to_string()),
        None,
        "now".to_string(),
    );
    assert_eq!(row.status, "stream_interrupted");
    assert_eq!(row.file_path, None);
    assert_eq!(row.error_message, Some("串流中斷".to_string()));

    let mut rows = vec![row];
    let plan = tidemark::download::history_update_plan(
        Some(Vec::new()),
        tidemark::download::clone_history_entry(&rows[0]),
    );
    assert_eq!(plan.unwrap().len(), 1);
    assert!(tidemark::download::history_update_plan(None, rows[0].clone()).is_none());
    tidemark::download::delete_history_entry(&mut rows, "h2");
    assert_eq!(rows.len(), 0);
}

#[test]
fn preset_list_operations_edit_in_place() {
    let mut presets = vec![
        tidemark::presets::DownloadPreset {
            id: "p1".to_string(),
            channel_id: "123".to_string(),
            channel_name: "alpha".to_string(),
            platform: "twitch".to_string(),
            enabled: true,
            quality: "best".to_string(),
            content_type: "video+audio".to_string(),
            output_dir: "/tmp".to_string(),
            filename_template: "{channel_name}".to_string(),
            container_format: "auto".to_string(),
            created_at: "c".to_string(),
            last_triggered_at: None,
            trigger_count: 0,
        },
    ];
    // Disabling an existing preset flips only its flag.
    tidemark::presets::toggle_preset_enabled(&mut presets, "p1", false).unwrap();
    assert!(!presets[0].enabled);
    assert_eq!(
        tidemark::presets::toggle_preset_enabled(&mut presets, "nope", true),
        Err("找不到此預設".to_string())
    );
    // Upsert replaces by id, appends otherwise.
    let mut replacement = presets[0].clone();
    replacement.quality = "720p".to_string();
    tidemark::presets::upsert_preset(&mut presets, replacement);
    assert_eq!(presets.len(), 1);
    assert_eq!(presets[0].quality, "720p");
    let mut second = presets[0].clone();
    second.id = "p2".to_string();
    tidemark::presets::upsert_preset(&mut presets, second);
    assert_eq!(presets.len(), 2);
    // Delete removes by id and keeps the order of the rest.
    tidemark::presets::delete_preset(&mut presets, "p1");
    assert_eq!(presets.len(), 1);
    assert_eq!(presets[0].id, "p2");
    assert!(tidemark::presets::check_has_enabled_presets(&presets) == presets[0].enabled);
}

#[test]
fn close_interception_follows_quit_and_presets() {
    assert!(!tidemark::tools::should_minimize_on_close(true, true, "minimize_to_tray"));
    assert!(tidemark::tools::should_minimize_on_close(false, true, "quit"));
    assert!(tidemark::tools::should_minimize_on_close(false, false, "minimize_to_tray"));
    assert!(!tidemark::tools::should_minimize_on_close(false, false, "quit"));
}

#[test]
fn probe_flag_names_the_content_kind() {
    assert_eq!(tidemark::download::youtube_content_type(true), "stream");
    assert_eq!(tidemark::download::youtube_content_type(false), "video");
    assert_eq!(tidemark::download::quality_label_for_height(2160), "4K");
    assert_eq!(tidemark::download::quality_label_for_height(1440), "1440p");
    assert_eq!(tidemark::download::quality_label_for_height(1080), "1080p");
    assert_eq!(tidemark::download::quality_label_for_height(720), "720p");
    assert_eq!(tidemark::download::quality_label_for_height(480), "480p");
    assert_eq!(tidemark::download::quality_label_for_height(100), "360p");
}

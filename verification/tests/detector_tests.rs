use tidemark::pubsub::{
    chunk_topics, handle_pubsub_message, next_backoff, topic_channel, topic_of,
    twitch_stream_identity, enabled_presets_for, PubSubAction, TwitchPubSubState,
};
use tidemark::youtube::{
    classify_rss_response, channel_not_found_message, effective_interval, first_live_video,
    parse_youtube_rss, polling_notify_decision, rate_limit_after_cycle, youtube_rss_url,
    youtube_watch_url, RssOutcome, YouTubePollingState,
};
use tidemark::presets::DownloadPreset;

fn sample_preset(id: &str, channel_id: &str, platform: &str, enabled: bool) -> DownloadPreset {
    DownloadPreset {
        id: id.to_string(),
        channel_id: channel_id.to_string(),
        channel_name: format!("name-{}", channel_id),
        platform: platform.to_string(),
        enabled,
        quality: "best".to_string(),
        content_type: "video+audio".to_string(),
        output_dir: "/tmp".to_string(),
        filename_template: "{channel_name}".to_string(),
        container_format: "auto".to_string(),
        created_at: "2024-01-01T00:00:00Z".to_string(),
        last_triggered_at: None,
        trigger_count: 0,
    }
}

#[test]
fn batching_at_the_topic_boundaries() {
    for (n, expected) in [(50usize, 1usize), (51, 2), (100, 2)] {
        let topics: Vec<String> = (0..n).map(|i| format!("video-playback-by-id.{}", i)).collect();
        let batches = chunk_topics(&topics);
        assert_eq!(batches.len(), expected, "{} topics", n);
        for b in &batches {
            assert!(b.len() <= 50 && !b.is_empty());
        }
        let flat: Vec<String> = batches.into_iter().flatten().collect();
        assert_eq!(flat, topics);
    }
    assert_eq!(chunk_topics(&Vec::new()).len(), 0);
    assert_eq!(chunk_topics(&vec!["a".to_string()]).len(), 1);
}

#[test]
fn backoff_doubles_and_caps() {
    assert_eq!(next_backoff(1), 2);
    assert_eq!(next_backoff(2), 4);
    assert_eq!(next_backoff(64), 120);
    assert_eq!(next_backoff(60), 120);
    assert_eq!(next_backoff(120), 120);
    let mut b = 1u64;
    for _ in 0..20 {
        b = next_backoff(b);
        assert!(b <= 120);
    }
    assert_eq!(b, 120);
}

#[test]
fn topics_name_the_channel_both_ways() {
    assert_eq!(topic_of("123"), "video-playback-by-id.123");
    assert_eq!(topic_channel("video-playback-by-id.123"), "123");
    assert_eq!(topic_channel("something-else"), "");
}

#[test]
fn message_frame_goes_live() {
    // The frame a channel going live produces.
    let text = r#"{"type":"MESSAGE","data":{"topic":"video-playback-by-id.123","message":"{\"type\":\"stream-up\"}"}}"#;
    let map = vec![("123".to_string(), "alpha".to_string())];
    match handle_pubsub_message(text, &map) {
        PubSubAction::StreamUp { channel_id, channel_name } => {
            assert_eq!(channel_id, "123");
            assert_eq!(channel_name, "alpha");
        },
        other => panic!("expected a stream-up, got {:?}", other),
    }
}

#[test]
fn message_frame_goes_offline_and_unknown_channels_keep_their_id() {
    let text = r#"{"type":"MESSAGE","data":{"topic":"video-playback-by-id.999","message":"{\"type\":\"stream-down\"}"}}"#;
    let map = vec![("123".to_string(), "alpha".to_string())];
    match handle_pubsub_message(text, &map) {
        PubSubAction::StreamDown { channel_id, channel_name } => {
            assert_eq!(channel_id, "999");
            assert_eq!(channel_name, "999");
        },
        other => panic!("expected a stream-down, got {:?}", other),
    }
}

#[test]
fn control_frames_are_ignored() {
    let map = vec![("123".to_string(), "alpha".to_string())];
    for text in [
        r#"{"type":"PONG"}"#,
        r#"{"type":"RECONNECT"}"#,
        r#"{"type":"RESPONSE","error":""}"#,
        "not json at all",
        r#"{"type":"MESSAGE","data":{"topic":"video-playback-by-id.123","message":"{\"type\":\"viewcount\"}"}}"#,
    ] {
        assert!(matches!(handle_pubsub_message(text, &map), PubSubAction::Ignore));
    }
}

#[test]
fn stream_identity_folds_the_channel_name() {
    let (stream_id, url) = twitch_stream_identity("123", "AlphaStreams", "2024-06-01T12:00:00Z");
    assert_eq!(stream_id, "twitch_123_2024-06-01T12:00:00Z");
    assert_eq!(url, "https://www.twitch.tv/alphastreams");
}

#[test]
fn enabled_presets_filter_by_platform() {
    let presets = vec![
        sample_preset("a", "1", "twitch", true),
        sample_preset("b", "2", "twitch", false),
        sample_preset("c", "3", "youtube", true),
        sample_preset("d", "4", "twitch", true),
    ];
    let twitch = enabled_presets_for(&presets, "twitch");
    let ids: Vec<&str> = twitch.iter().map(|p| p.id.as_str()).collect();
    assert_eq!(ids, vec!["a", "d"]);
    let state = TwitchPubSubState::new();
    assert!(!state.connected && state.subscribed_channels.is_empty());
}

#[test]
fn rss_scan_extracts_up_to_five_ids() {
    let xml = r#"<?xml version="1.0"?>
<feed xmlns:yt="http://www.youtube.com/xml/schemas/2015">
 <entry><yt:videoId>abcdefghijk</yt:videoId></entry>
 <entry><yt:videoId> lmnopqrstuv </yt:videoId></entry>
 <entry><yt:videoId>AAAAAAAAAA1</yt:videoId></entry>
 <entry><yt:videoId>AAAAAAAAAA2</yt:videoId></entry>
 <entry><yt:videoId>AAAAAAAAAA3</yt:videoId></entry>
 <entry><yt:videoId>AAAAAAAAAA4</yt:videoId></entry>
</feed>"#;
    let ids = parse_youtube_rss(xml, 5);
    assert_eq!(ids, vec!["abcdefghijk", "lmnopqrstuv", "AAAAAAAAAA1", "AAAAAAAAAA2", "AAAAAAAAAA3"]);
    assert_eq!(parse_youtube_rss("<feed></feed>", 5).len(), 0);
    assert_eq!(parse_youtube_rss(xml, 2).len(), 2);
}

#[test]
fn missing_channel_and_empty_feed_are_the_same_outcome() {
    // A missing feed disables the channel …
    assert!(matches!(classify_rss_response(404, ""), RssOutcome::NotFound));
    // … and so does a successful fetch whose feed holds no entries.
    assert!(matches!(
        classify_rss_response(200, "<feed><title>empty</title></feed>"),
        RssOutcome::NotFound
    ));
    assert_eq!(channel_not_found_message(), "頻道不存在");
}

#[test]
fn rate_limit_and_failures_classify_apart() {
    assert!(matches!(classify_rss_response(429, ""), RssOutcome::RateLimit));
    assert!(matches!(classify_rss_response(500, ""), RssOutcome::SkipCycle));
    assert!(matches!(classify_rss_response(302, ""), RssOutcome::SkipCycle));
    let xml = "<feed><yt:videoId>abcdefghijk</yt:videoId></feed>";
    match classify_rss_response(200, xml) {
        RssOutcome::Candidates(ids) => assert_eq!(ids, vec!["abcdefghijk"]),
        other => panic!("expected candidates, got {:?}", other),
    }
}

#[test]
fn first_live_probe_wins_and_failures_are_passed_over() {
    let ids = vec!["a".to_string(), "b".to_string(), "c".to_string()];
    let probes = vec![None, Some(false), Some(true)];
    assert_eq!(first_live_video(&ids, &probes), Some("c".to_string()));
    let probes = vec![Some(false), Some(false), Some(false)];
    assert_eq!(first_live_video(&ids, &probes), None);
    let probes = vec![Some(true), Some(true), Some(false)];
    assert_eq!(first_live_video(&ids, &probes), Some("a".to_string()));
}

#[test]
fn rate_limit_window_doubles_then_restores() {
    // While the window is open, the interval doubles.
    let (interval, state) = effective_interval(90, Some(1000), 500);
    assert_eq!(interval, 180);
    assert_eq!(state, Some(1000));
    // Once the window has passed, the base interval returns.
    let (interval, state) = effective_interval(90, Some(1000), 1000);
    assert_eq!(interval, 90);
    assert_eq!(state, None);
    let (interval, state) = effective_interval(90, None, 500);
    assert_eq!(interval, 90);
    assert_eq!(state, None);
    // A fresh rate limit opens a five-minute window.
    assert_eq!(rate_limit_after_cycle(None, true, 700), Some(1000));
    assert_eq!(rate_limit_after_cycle(None, false, 700), None);
    assert_eq!(rate_limit_after_cycle(Some(900), true, 700), Some(900));
}

#[test]
fn polling_disruption_notifies_once_per_outage() {
    // First rate limit of an outage: notify and remember.
    assert_eq!(polling_notify_decision(true, false, false), (true, true));
    // Repeat within the same outage: stay quiet.
    assert_eq!(polling_notify_decision(true, false, true), (false, true));
    // Quiet cycle after the window cleared: forget the outage.
    assert_eq!(polling_notify_decision(false, false, true), (false, false));
    // While the window is still open nothing changes.
    assert_eq!(polling_notify_decision(false, true, true), (false, true));
}

#[test]
fn youtube_urls_are_built_from_ids() {
    assert_eq!(youtube_watch_url("abcdefghijk"), "https://www.youtube.com/watch?v=abcdefghijk");
    assert_eq!(
        youtube_rss_url("UCxyz"),
        "https://www.youtube.com/feeds/videos.xml?channel_id=UCxyz"
    );
    let st = YouTubePollingState::new();
    assert!(!st.active && st.polling_channels.is_empty());
}

#[test]
fn probe_liveness_flag_is_read_from_json() {
    assert!(tidemark::outside::extract_is_live(br#"{"is_live": true, "id": "x"}"#));
    assert!(!tidemark::outside::extract_is_live(br#"{"is_live": false}"#));
    assert!(!tidemark::outside::extract_is_live(br#"{"title": "no flag"}"#));
    assert!(!tidemark::outside::extract_is_live(b"not json"));
}

#[test]
fn fresh_identifiers_are_hyphenated_uuids() {
    let a = tidemark::outside::new_task_id();
    let b = tidemark::outside::new_task_id();
    assert_eq!(a.chars().count(), 36);
    assert_ne!(a, b);
}

#[test]
fn disconnect_notifies_once_per_outage() {
    // First break of an outage: notify and latch.
    assert_eq!(tidemark::pubsub::disconnect_notice_decision(false, false), (true, true));
    // Further retries of the same outage: stay quiet.
    assert_eq!(tidemark::pubsub::disconnect_notice_decision(false, true), (false, true));
    // A successful reconnection clears the latch.
    assert_eq!(tidemark::pubsub::disconnect_notice_decision(true, true), (false, false));
    assert_eq!(tidemark::pubsub::disconnect_notice_decision(true, false), (false, false));
}

#[test]
fn probe_outcomes_classify_by_completion_and_exit() {
    let live = br#"{"is_live": true}"#;
    let idle = br#"{"is_live": false}"#;
    assert_eq!(tidemark::youtube::classify_probe_output(true, true, live), Some(true));
    assert_eq!(tidemark::youtube::classify_probe_output(true, true, idle), Some(false));
    // A timeout or a failed exit is unknown, whatever the output holds.
    assert_eq!(tidemark::youtube::classify_probe_output(false, true, live), None);
    assert_eq!(tidemark::youtube::classify_probe_output(true, false, live), None);
}

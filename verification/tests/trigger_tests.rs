use tidemark::presets::DownloadPreset;
use tidemark::recorder::RecStatus;
use tidemark::sched::{
    DropReason, PumpOutcome, ScheduledDownloadState, TaskStatus, TriggerOutcome,
};

fn preset(id: &str, channel_id: &str, channel_name: &str, platform: &str, enabled: bool) -> DownloadPreset {
    DownloadPreset {
        id: id.to_string(),
        channel_id: channel_id.to_string(),
        channel_name: channel_name.to_string(),
        platform: platform.to_string(),
        enabled,
        quality: "best".to_string(),
        content_type: "video+audio".to_string(),
        output_dir: "/tmp".to_string(),
        filename_template: "{channel_name}_{datetime}".to_string(),
        container_format: "mp4".to_string(),
        created_at: "2024-01-01T00:00:00Z".to_string(),
        last_triggered_at: None,
        trigger_count: 0,
    }
}

fn fire(
    state: &mut ScheduledDownloadState,
    presets: &Vec<DownloadPreset>,
    channel_id: &str,
    stream_id: &str,
    now: u64,
    paused: bool,
    free: Option<u64>,
    task_id: &str,
) -> TriggerOutcome {
    state.trigger_scheduled_download(
        presets,
        &channel_id.to_string(),
        &"alpha".to_string(),
        &"twitch".to_string(),
        &stream_id.to_string(),
        &"https://www.twitch.tv/alpha".to_string(),
        paused,
        now,
        "2024-06-01T12:00:00Z".to_string(),
        300,
        free,
        task_id.to_string(),
    )
}

#[test]
fn twitch_go_live_fans_out_to_one_queued_task() {
    // An enabled preset, an empty queue, and a single live event.
    let presets = vec![preset("p1", "123", "alpha", "twitch", true)];
    let mut state = ScheduledDownloadState::new();
    let out = fire(&mut state, &presets, "123", "twitch_123_t1", 1000, false, None, "task-1");
    match out {
        TriggerOutcome::Triggered { preset_id } => assert_eq!(preset_id, "p1"),
        other => panic!("expected a trigger, got {:?}", other),
    }
    assert_eq!(state.queue.len(), 1);
    let t = &state.queue[0];
    assert_eq!(t.id, "task-1");
    assert_eq!(t.platform, "twitch");
    assert_eq!(t.stream_url, "https://www.twitch.tv/alpha");
    assert!(t.status == TaskStatus::Queued);

    // One pump tick with a concurrency cap of one admits it.
    let statuses: Vec<RecStatus> = Vec::new();
    let out = state.process_scheduled_queue(&statuses, 1, "2024-06-01T12:00:01Z".to_string());
    match out {
        PumpOutcome::Started { task } => {
            assert_eq!(task.id, "task-1");
            assert!(task.status == TaskStatus::Downloading);
        },
        other => panic!("expected admission, got {:?}", other),
    }
    assert!(state.queue[0].status == TaskStatus::Downloading);
    assert_eq!(state.queue[0].started_at.as_deref(), Some("2024-06-01T12:00:01Z"));

    // The preset records the trigger.
    let mut plist = presets.clone();
    let updated = tidemark::presets::record_preset_trigger(
        &mut plist,
        "p1",
        "2024-06-01T12:00:00Z".to_string(),
    );
    assert!(updated);
    assert_eq!(plist[0].trigger_count, 1);
    assert_eq!(plist[0].last_triggered_at.as_deref(), Some("2024-06-01T12:00:00Z"));
}

#[test]
fn second_event_within_cooldown_is_suppressed() {
    let presets = vec![preset("p1", "123", "alpha", "twitch", true)];
    let mut state = ScheduledDownloadState::new();
    let out = fire(&mut state, &presets, "123", "twitch_123_t1", 1000, false, None, "task-1");
    assert!(matches!(out, TriggerOutcome::Triggered { .. }));
    // A different stream id for the same channel, ten seconds later.
    let out = fire(&mut state, &presets, "123", "twitch_123_t2", 1010, false, None, "task-2");
    assert!(matches!(out, TriggerOutcome::Dropped(DropReason::Cooldown)));
    assert_eq!(state.queue.len(), 1);
}

#[test]
fn duplicate_stream_id_is_suppressed() {
    let presets = vec![preset("p1", "123", "alpha", "twitch", true)];
    let mut state = ScheduledDownloadState::new();
    fire(&mut state, &presets, "123", "twitch_123_t1", 1000, false, None, "task-1");
    // Same stream id long after the cooldown.
    let out = fire(&mut state, &presets, "123", "twitch_123_t1", 2000, false, None, "task-2");
    assert!(matches!(out, TriggerOutcome::Dropped(DropReason::DuplicateStream)));
    assert_eq!(state.queue.len(), 1);
}

#[test]
fn paused_monitoring_creates_no_task() {
    let presets = vec![preset("p1", "123", "alpha", "twitch", true)];
    let mut state = ScheduledDownloadState::new();
    let out = fire(&mut state, &presets, "123", "twitch_123_t1", 1000, true, None, "task-1");
    assert!(matches!(out, TriggerOutcome::Dropped(DropReason::Paused)));
    assert_eq!(state.queue.len(), 0);
    assert_eq!(state.triggered_streams.len(), 0);
}

#[test]
fn no_matching_preset_drops_the_event() {
    let presets = vec![
        preset("p1", "123", "alpha", "twitch", false),
        preset("p2", "999", "beta", "youtube", true),
    ];
    let mut state = ScheduledDownloadState::new();
    let out = fire(&mut state, &presets, "123", "twitch_123_t1", 1000, false, None, "task-1");
    assert!(matches!(out, TriggerOutcome::Dropped(DropReason::NoPreset)));
    assert_eq!(state.queue.len(), 0);
}

#[test]
fn disk_full_drops_and_reports_the_shortfall() {
    // A mount with 100 MiB free.
    let presets = vec![preset("p1", "123", "alpha", "twitch", true)];
    let mut state = ScheduledDownloadState::new();
    let out = fire(
        &mut state,
        &presets,
        "123",
        "twitch_123_t1",
        1000,
        false,
        Some(104857600),
        "task-1",
    );
    match out {
        TriggerOutcome::DiskFull { free_bytes, required_bytes } => {
            assert_eq!(free_bytes, 104857600);
            assert_eq!(required_bytes, 524288000);
        },
        other => panic!("expected a disk refusal, got {:?}", other),
    }
    assert_eq!(state.queue.len(), 0);
    assert_eq!(state.triggered_streams.len(), 0);
    assert_eq!(state.last_trigger_per_channel.len(), 0);
}

#[test]
fn disk_boundary_admits_at_exactly_the_minimum() {
    let presets = vec![preset("p1", "123", "alpha", "twitch", true)];
    let mut state = ScheduledDownloadState::new();
    let out = fire(
        &mut state,
        &presets,
        "123",
        "twitch_123_t1",
        1000,
        false,
        Some(524288000),
        "task-1",
    );
    assert!(matches!(out, TriggerOutcome::Triggered { .. }));

    let mut state2 = ScheduledDownloadState::new();
    let out = fire(
        &mut state2,
        &presets,
        "123",
        "twitch_123_t2",
        1000,
        false,
        Some(524287999),
        "task-2",
    );
    assert!(matches!(out, TriggerOutcome::DiskFull { .. }));
}

#[test]
fn cooldown_expires_after_the_window() {
    let presets = vec![preset("p1", "123", "alpha", "twitch", true)];
    let mut state = ScheduledDownloadState::new();
    fire(&mut state, &presets, "123", "twitch_123_t1", 1000, false, None, "task-1");
    let out = fire(&mut state, &presets, "123", "twitch_123_t2", 1300, false, None, "task-2");
    assert!(matches!(out, TriggerOutcome::Triggered { .. }));
    assert_eq!(state.queue.len(), 2);
}

#[test]
fn pump_respects_the_concurrency_cap() {
    let presets = vec![preset("p1", "123", "alpha", "twitch", true)];
    let mut state = ScheduledDownloadState::new();
    fire(&mut state, &presets, "123", "twitch_123_t1", 1000, false, None, "task-1");
    let busy = vec![RecStatus::Recording, RecStatus::Downloading, RecStatus::Processing];
    let out = state.process_scheduled_queue(&busy, 3, "now".to_string());
    assert!(matches!(out, PumpOutcome::AtCapacity));
    assert!(state.queue[0].status == TaskStatus::Queued);
    // Terminal recorder statuses do not count against the cap.
    let done = vec![RecStatus::Completed, RecStatus::Failed, RecStatus::Cancelled, RecStatus::Paused];
    let out = state.process_scheduled_queue(&done, 3, "now".to_string());
    assert!(matches!(out, PumpOutcome::Started { .. }));
}

#[test]
fn pump_twice_on_idle_queue_changes_nothing() {
    let mut state = ScheduledDownloadState::new();
    let statuses: Vec<RecStatus> = Vec::new();
    let out = state.process_scheduled_queue(&statuses, 3, "now".to_string());
    assert!(matches!(out, PumpOutcome::Idle));
    let out = state.process_scheduled_queue(&statuses, 3, "now".to_string());
    assert!(matches!(out, PumpOutcome::Idle));
    assert_eq!(state.queue.len(), 0);
}

#[test]
fn cancel_while_downloading_frees_the_slot_for_the_next_task() {
    let presets = vec![preset("p1", "123", "alpha", "twitch", true)];
    let mut state = ScheduledDownloadState::new();
    fire(&mut state, &presets, "123", "twitch_123_t1", 1000, false, None, "task-1");
    let none: Vec<RecStatus> = Vec::new();
    state.process_scheduled_queue(&none, 1, "t1".to_string());
    state.link_download_task(&"task-1".to_string(), "dl-1".to_string());

    // A second channel queues while the first records.
    let presets2 = vec![
        preset("p1", "123", "alpha", "twitch", true),
        preset("p2", "456", "alpha", "twitch", true),
    ];
    let out = state.trigger_scheduled_download(
        &presets2,
        &"456".to_string(),
        &"beta".to_string(),
        &"twitch".to_string(),
        &"twitch_456_t1".to_string(),
        &"https://www.twitch.tv/beta".to_string(),
        false,
        1001,
        "t1".to_string(),
        300,
        None,
        "task-2".to_string(),
    );
    assert!(matches!(out, TriggerOutcome::Triggered { .. }));
    let busy = vec![RecStatus::Recording];
    assert!(matches!(
        state.process_scheduled_queue(&busy, 1, "t2".to_string()),
        PumpOutcome::AtCapacity
    ));

    // Cancel the running task; its recording id comes back for the kill.
    let dl = state
        .cancel_scheduled_download(&"task-1".to_string(), "t3".to_string())
        .unwrap();
    assert_eq!(dl.as_deref(), Some("dl-1"));
    assert!(state.queue[0].status == TaskStatus::Cancelled);
    assert_eq!(state.queue[0].completed_at.as_deref(), Some("t3"));

    // With the recorder slot free, the next queued task is admitted.
    let out = state.process_scheduled_queue(&none, 1, "t4".to_string());
    match out {
        PumpOutcome::Started { task } => assert_eq!(task.id, "task-2"),
        other => panic!("expected the next task, got {:?}", other),
    }
}

#[test]
fn cancel_refuses_terminal_tasks_and_unknown_ids() {
    let presets = vec![preset("p1", "123", "alpha", "twitch", true)];
    let mut state = ScheduledDownloadState::new();
    fire(&mut state, &presets, "123", "twitch_123_t1", 1000, false, None, "task-1");
    assert_eq!(
        state.cancel_scheduled_download(&"missing".to_string(), "t".to_string()),
        Err("找不到此排程任務".to_string())
    );
    state.cancel_scheduled_download(&"task-1".to_string(), "t".to_string()).unwrap();
    assert_eq!(
        state.cancel_scheduled_download(&"task-1".to_string(), "t".to_string()),
        Err("此任務已結束，無法取消".to_string())
    );
}

#[test]
fn retry_queues_a_fresh_task_and_keeps_the_original() {
    let presets = vec![preset("p1", "123", "alpha", "twitch", true)];
    let mut state = ScheduledDownloadState::new();
    fire(&mut state, &presets, "123", "twitch_123_t1", 1000, false, None, "task-1");
    state.cancel_scheduled_download(&"task-1".to_string(), "t".to_string()).unwrap();
    let new_task = state
        .retry_scheduled_download(&"task-1".to_string(), "task-2".to_string(), 2000, "t2".to_string())
        .unwrap();
    assert_eq!(new_task.id, "task-2");
    assert_eq!(new_task.stream_id, "twitch_123_t1");
    assert!(new_task.status == TaskStatus::Queued);
    assert_eq!(state.queue.len(), 2);
    assert!(state.queue[0].status == TaskStatus::Cancelled);

    // Only failed or cancelled tasks may retry.
    match state.retry_scheduled_download(&"task-2".to_string(), "task-3".to_string(), 2001, "t3".to_string()) {
        Err(e) => assert_eq!(e, "只能重試失敗或已取消的任務"),
        Ok(_) => panic!("expected a refusal"),
    }
}

#[test]
fn finish_maps_recorder_endings_and_demands_a_pump() {
    let presets = vec![preset("p1", "123", "alpha", "twitch", true)];
    let mut state = ScheduledDownloadState::new();
    fire(&mut state, &presets, "123", "twitch_123_t1", 1000, false, None, "task-1");
    let out = state.finish_scheduled_task(
        &"task-1".to_string(),
        RecStatus::Completed,
        Some("/tmp/alpha.mp4".to_string()),
        Some(1024),
        None,
        "done-at".to_string(),
    );
    assert!(out.pump_required);
    assert!(out.found);
    assert!(out.updated);
    assert!(out.new_status == TaskStatus::Completed);
    assert_eq!(out.channel_name, "alpha");
    assert!(state.queue[0].status == TaskStatus::Completed);
    assert_eq!(state.queue[0].file_path.as_deref(), Some("/tmp/alpha.mp4"));
    assert_eq!(state.queue[0].file_size, Some(1024));

    // A failed recording fails the task and carries the error.
    let mut state2 = ScheduledDownloadState::new();
    fire(&mut state2, &presets, "123", "twitch_123_t9", 1000, false, None, "task-9");
    let out = state2.finish_scheduled_task(
        &"task-9".to_string(),
        RecStatus::Failed,
        None,
        None,
        Some("boom".to_string()),
        "done-at".to_string(),
    );
    assert!(out.pump_required);
    assert!(out.new_status == TaskStatus::Failed);
    assert_eq!(out.error.as_deref(), Some("boom"));

    // A stream cut short still counts as a completed capture.
    let mut state3 = ScheduledDownloadState::new();
    fire(&mut state3, &presets, "123", "twitch_123_t8", 1000, false, None, "task-8");
    let out = state3.finish_scheduled_task(
        &"task-8".to_string(),
        RecStatus::StreamInterrupted,
        Some("/tmp/partial.ts".to_string()),
        Some(7),
        Some("串流中斷".to_string()),
        "done-at".to_string(),
    );
    assert!(out.new_status == TaskStatus::Completed);
    assert_eq!(state3.queue[0].file_path.as_deref(), Some("/tmp/partial.ts"));
}

#[test]
fn mark_failed_records_the_error() {
    let presets = vec![preset("p1", "123", "alpha", "twitch", true)];
    let mut state = ScheduledDownloadState::new();
    fire(&mut state, &presets, "123", "twitch_123_t1", 1000, false, None, "task-1");
    let name = state.mark_scheduled_task_failed(
        &"task-1".to_string(),
        &"找不到對應的預設".to_string(),
        "t".to_string(),
    );
    assert_eq!(name, "alpha");
    assert!(state.queue[0].status == TaskStatus::Failed);
    assert_eq!(state.queue[0].error_message.as_deref(), Some("找不到對應的預設"));
}

#[test]
fn queue_snapshot_reflects_every_task() {
    let presets = vec![preset("p1", "123", "alpha", "twitch", true)];
    let mut state = ScheduledDownloadState::new();
    fire(&mut state, &presets, "123", "twitch_123_t1", 1000, false, None, "task-1");
    let snap = state.get_scheduled_download_queue();
    assert_eq!(snap.len(), 1);
    assert_eq!(snap[0].id, "task-1");
}

#[test]
fn cancelled_task_stays_cancelled_when_the_recording_ends() {
    // A downloading task is cancelled; the killed child then exits and the
    // monitor records the end. The task must stay cancelled.
    let presets = vec![preset("p1", "123", "alpha", "twitch", true)];
    let mut state = ScheduledDownloadState::new();
    fire(&mut state, &presets, "123", "twitch_123_t1", 1000, false, None, "task-1");
    let none: Vec<RecStatus> = Vec::new();
    state.process_scheduled_queue(&none, 1, "t1".to_string());
    state.link_download_task(&"task-1".to_string(), "dl-1".to_string());
    state.cancel_scheduled_download(&"task-1".to_string(), "t2".to_string()).unwrap();
    assert!(state.queue[0].status == TaskStatus::Cancelled);

    let out = state.finish_scheduled_task(
        &"task-1".to_string(),
        RecStatus::Cancelled,
        None,
        None,
        Some("錄製失敗".to_string()),
        "t3".to_string(),
    );
    assert!(out.found);
    assert!(!out.updated);
    assert!(out.pump_required);
    assert_eq!(out.error, None);
    assert!(state.queue[0].status == TaskStatus::Cancelled);
    assert_eq!(state.queue[0].completed_at.as_deref(), Some("t2"));
    assert_eq!(state.queue[0].error_message, None);
}

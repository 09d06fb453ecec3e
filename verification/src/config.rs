//! The host configuration the engine reads, with the default every field
//! falls back to.

use vstd::prelude::*;
use vstd::string::*;

verus! {

/// Host configuration, as the engine consumes it.
#[derive(Debug, Clone)]
pub struct AppConfig {
    pub default_download_folder: String,
    pub default_subtitle_folder: String,
    pub launch_on_startup: bool,
    pub desktop_notifications: bool,
    pub language: String,
    pub timezone: String,
    pub enable_transcoder: bool,
    pub default_video_quality: String,
    pub output_container: String,
    pub max_concurrent_downloads: usize,
    pub auto_retry: bool,
    pub max_retry_count: u32,
    /// In megabytes per second; zero means unlimited.
    pub download_speed_limit: u32,
    pub show_codec_options: bool,
    pub theme: String,
    pub animation: bool,
    pub compact: bool,
    pub show_all_records_folder: bool,
    pub show_uncategorized_folder: bool,
    pub download_clip_before_offset: u32,
    pub download_clip_after_offset: u32,
    pub enable_hardware_encoding: bool,
    pub hardware_encoder: String,
    pub enable_frontend_acceleration: bool,
    pub enable_scheduled_downloads: bool,
    pub close_behavior: String,
    pub youtube_polling_interval: u32,
    pub trigger_cooldown: u32,
    pub scheduled_download_notification: String,
    pub scheduled_download_auto_transcribe: bool,
    pub auto_start_monitoring: bool,
}

/// Default folder recordings are written to.
pub fn default_download_folder() -> (r: String)
    ensures
        r@ == "~/Tidemark/Downloads"@,
{
    "~/Tidemark/Downloads".to_owned()
}

/// Default folder subtitles are written to.
pub fn default_subtitle_folder() -> (r: String)
    ensures
        r@ == "~/Tidemark/Downloads"@,
{
    "~/Tidemark/Downloads".to_owned()
}

/// The default for the flags that start enabled.
pub fn default_true() -> (r: bool)
    ensures
        r,
{
    true
}

/// Default display language.
pub fn default_language() -> (r: String)
    ensures
        r@ == "繁體中文"@,
{
    "繁體中文".to_owned()
}

/// Default time zone selection.
pub fn default_timezone() -> (r: String)
    ensures
        r@ == "System"@,
{
    "System".to_owned()
}

/// Default quality selector for ad-hoc downloads.
pub fn default_video_quality() -> (r: String)
    ensures
        r@ == "Highest"@,
{
    "Highest".to_owned()
}

/// Default output container selection.
pub fn default_output_container() -> (r: String)
    ensures
        r@ == "Auto"@,
{
    "Auto".to_owned()
}

/// Default concurrency cap for downloads.
pub fn default_max_concurrent_downloads() -> (r: usize)
    ensures
        r == 3,
{
    3
}

/// Default number of retry attempts.
pub fn default_max_retry_count() -> (r: u32)
    ensures
        r == 3,
{
    3
}

/// Default colour theme.
pub fn default_theme() -> (r: String)
    ensures
        r@ == "system"@,
{
    "system".to_owned()
}

/// Default clip padding, in seconds.
pub fn default_clip_offset() -> (r: u32)
    ensures
        r == 10,
{
    10
}

/// Default hardware encoder selection.
pub fn default_hardware_encoder() -> (r: String)
    ensures
        r@ == "auto"@,
{
    "auto".to_owned()
}

/// Default behaviour of the window close button.
pub fn default_close_behavior() -> (r: String)
    ensures
        r@ == "minimize_to_tray"@,
{
    "minimize_to_tray".to_owned()
}

/// Default feed polling cadence, in seconds.
pub fn default_youtube_polling_interval() -> (r: u32)
    ensures
        r == 90,
{
    90
}

/// Default per-channel trigger cooldown, in seconds.
pub fn default_trigger_cooldown() -> (r: u32)
    ensures
        r == 300,
{
    300
}

/// Default routing of scheduled-download notifications.
pub fn default_scheduled_download_notification() -> (r: String)
    ensures
        r@ == "both"@,
{
    "both".to_owned()
}

impl Default for AppConfig {
    /// The configuration every field defaults to.
    fn default() -> (r: Self)
        ensures
            r.default_download_folder@ == "~/Tidemark/Downloads"@,
            r.default_subtitle_folder@ == "~/Tidemark/Downloads"@,
            !r.launch_on_startup,
            r.desktop_notifications,
            r.language@ == "繁體中文"@,
            r.timezone@ == "System"@,
            !r.enable_transcoder,
            r.default_video_quality@ == "Highest"@,
            r.output_container@ == "Auto"@,
            r.max_concurrent_downloads == 3,
            r.auto_retry,
            r.max_retry_count == 3,
            r.download_speed_limit == 0,
            !r.show_codec_options,
            r.theme@ == "system"@,
            r.animation,
            !r.compact,
            r.show_all_records_folder,
            r.show_uncategorized_folder,
            r.download_clip_before_offset == 10,
            r.download_clip_after_offset == 10,
            !r.enable_hardware_encoding,
            r.hardware_encoder@ == "auto"@,
            r.enable_frontend_acceleration,
            !r.enable_scheduled_downloads,
            r.close_behavior@ == "minimize_to_tray"@,
            r.youtube_polling_interval == 90,
            r.trigger_cooldown == 300,
            r.scheduled_download_notification@ == "both"@,
            !r.scheduled_download_auto_transcribe,
            r.auto_start_monitoring,
    {
        AppConfig {
            default_download_folder: default_download_folder(),
            default_subtitle_folder: default_subtitle_folder(),
            launch_on_startup: false,
            desktop_notifications: default_true(),
            language: default_language(),
            timezone: default_timezone(),
            enable_transcoder: false,
            default_video_quality: default_video_quality(),
            output_container: default_output_container(),
            max_concurrent_downloads: default_max_concurrent_downloads(),
            auto_retry: default_true(),
            max_retry_count: default_max_retry_count(),
            download_speed_limit: 0,
            show_codec_options: false,
            theme: default_theme(),
            animation: default_true(),
            compact: false,
            show_all_records_folder: default_true(),
            show_uncategorized_folder: default_true(),
            download_clip_before_offset: default_clip_offset(),
            download_clip_after_offset: default_clip_offset(),
            enable_hardware_encoding: false,
            hardware_encoder: default_hardware_encoder(),
            enable_frontend_acceleration: default_true(),
            enable_scheduled_downloads: false,
            close_behavior: default_close_behavior(),
            youtube_polling_interval: default_youtube_polling_interval(),
            trigger_cooldown: default_trigger_cooldown(),
            scheduled_download_notification: default_scheduled_download_notification(),
            scheduled_download_auto_transcribe: false,
            auto_start_monitoring: default_true(),
        }
    }
}

/// How scheduled-download notifications are delivered for a setting:
/// whether the system notification goes out, and whether the in-app toast
/// does.
pub fn notify_plan(mode: &str) -> (r: (bool, bool))
    ensures
        r.0 == (mode@ == "os"@ || mode@ == "both"@),
        r.1 == (mode@ == "toast"@ || mode@ == "both"@),
{
    let os = crate::strutil::str_eq(mode, "os") || crate::strutil::str_eq(mode, "both");
    let toast = crate::strutil::str_eq(mode, "toast") || crate::strutil::str_eq(mode, "both");
    (os, toast)
}

/// Free space on a mount from the raw filesystem statistics: the available
/// block count times the block size, held at the unsigned 64-bit maximum,
/// when the query succeeded; the failure code in the error otherwise.
pub fn check_disk_space(ret: i32, blocks_available: u64, block_size: u64) -> (r: Result<
    u64,
    String,
>)
    ensures
        ret == 0 ==> (r matches Ok(free) && free as int == if blocks_available as int
            * block_size as int <= u64::MAX as int {
            blocks_available as int * block_size as int
        } else {
            u64::MAX as int
        }),
        ret != 0 ==> (r matches Err(e) && e@ == "statvfs failed (code "@ + crate::strutil::spec_dec_int(
            ret as int,
        ) + ")"@),
{
    if ret == 0 {
        let free = match blocks_available.checked_mul(block_size) {
            Some(v) => v,
            None => u64::MAX,
        };
        Ok(free)
    } else {
        let mut msg = "statvfs failed (code ".to_owned();
        let code = crate::strutil::i64_to_dec(ret as i64);
        msg.append(code.as_str());
        msg.append(")");
        proof {
            assert(msg@ =~= "statvfs failed (code "@ + crate::strutil::spec_dec_int(ret as int)
                + ")"@);
        }
        Err(msg)
    }
}

} // verus!

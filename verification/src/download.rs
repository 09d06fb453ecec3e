//! Download and recording configuration: the video metadata model, the
//! quality-to-format mapping, time-range validation, and the argument
//! lists handed to the capture binary.

use vstd::prelude::*;
use vstd::string::*;

use crate::strutil::str_eq;
use crate::timefmt::{
    parse_time_to_seconds, spec_normalize_hhmmss, spec_parse_time, spec_time_shape_bad,
    normalize_time_to_hhmmss,
};

verus! {

/// One selectable quality of a video.
#[derive(Debug, Clone)]
pub struct VideoQuality {
    pub format_id: String,
    pub quality: String,
    pub ext: String,
    pub vcodec: Option<String>,
    pub acodec: Option<String>,
    pub filesize: Option<i64>,
}

/// Metadata of a video or live stream.
#[derive(Debug, Clone)]
pub struct VideoInfo {
    pub id: String,
    pub title: String,
    pub channel: String,
    pub thumbnail: String,
    pub duration: Option<i64>,
    pub platform: String,
    pub content_type: String,
    pub is_live: bool,
    pub qualities: Vec<VideoQuality>,
}

/// An optional clip window within a video.
#[derive(Debug, Clone)]
pub struct TimeRange {
    /// `HH:MM:SS`, `MM:SS` or bare seconds.
    pub start: Option<String>,
    pub end: Option<String>,
}

/// Everything a capture run needs.
#[derive(Debug, Clone)]
pub struct DownloadConfig {
    pub url: String,
    pub video_info: VideoInfo,
    pub format_id: String,
    /// `"video+audio"`, `"video_only"` or `"audio_only"`.
    pub content_type: String,
    pub video_codec: Option<String>,
    pub audio_codec: Option<String>,
    pub output_filename: String,
    pub output_folder: String,
    /// `"auto"`, `"mp4"` or `"mkv"`.
    pub container_format: String,
    pub time_range: Option<TimeRange>,
}

/// One row of the download history.
#[derive(Debug, Clone)]
pub struct DownloadHistoryEntry {
    pub id: String,
    pub url: String,
    pub title: String,
    pub channel: String,
    pub platform: String,
    pub content_type: String,
    pub status: String,
    pub file_path: Option<String>,
    pub file_size: Option<u64>,
    pub resolution: Option<String>,
    pub started_at: String,
    pub completed_at: Option<String>,
    pub error_message: Option<String>,
}

// ── Format selection ────────────────────────────────────────────────────

/// The format selector a preset's quality and content type map to.
pub open spec fn spec_quality_format(quality: Seq<char>, content_type: Seq<char>) -> Seq<char> {
    if content_type == "audio_only"@ {
        "bestaudio"@
    } else if quality == "best"@ {
        "bestvideo+bestaudio/best"@
    } else if quality == "1080p"@ {
        "bestvideo[height<=1080]+bestaudio/best[height<=1080]"@
    } else if quality == "720p"@ {
        "bestvideo[height<=720]+bestaudio/best[height<=720]"@
    } else if quality == "480p"@ {
        "bestvideo[height<=480]+bestaudio/best[height<=480]"@
    } else if quality == "360p"@ {
        "bestvideo[height<=360]+bestaudio/best[height<=360]"@
    } else {
        "bestvideo+bestaudio/best"@
    }
}

/// Map a preset's quality selector and content type to a format selector
/// for the capture binary.
pub fn quality_to_format(quality: &str, content_type: &str) -> (r: String)
    ensures
        r@ == spec_quality_format(quality@, content_type@),
{
    if str_eq(content_type, "audio_only") {
        return "bestaudio".to_owned();
    }
    if str_eq(quality, "best") {
        "bestvideo+bestaudio/best".to_owned()
    } else if str_eq(quality, "1080p") {
        "bestvideo[height<=1080]+bestaudio/best[height<=1080]".to_owned()
    } else if str_eq(quality, "720p") {
        "bestvideo[height<=720]+bestaudio/best[height<=720]".to_owned()
    } else if str_eq(quality, "480p") {
        "bestvideo[height<=480]+bestaudio/best[height<=480]".to_owned()
    } else if str_eq(quality, "360p") {
        "bestvideo[height<=360]+bestaudio/best[height<=360]".to_owned()
    } else {
        "bestvideo+bestaudio/best".to_owned()
    }
}

/// The container extension a recording is written with: the chosen
/// container when one is forced, a transport stream otherwise.
pub open spec fn spec_container_ext(container: Seq<char>) -> Seq<char> {
    if container == "mp4"@ {
        "mp4"@
    } else if container == "mkv"@ {
        "mkv"@
    } else {
        "ts"@
    }
}

/// Pick the file extension for a recording.
pub fn container_ext(container_format: &str) -> (r: &'static str)
    ensures
        r@ == spec_container_ext(container_format@),
{
    if str_eq(container_format, "mp4") {
        "mp4"
    } else if str_eq(container_format, "mkv") {
        "mkv"
    } else {
        "ts"
    }
}

/// Append the container extension to an expanded filename.
pub fn output_filename_with_ext(filename: &str, container_format: &str) -> (r: String)
    ensures
        r@ == filename@ + "."@ + spec_container_ext(container_format@),
{
    let mut out = filename.to_owned();
    out.append(".");
    out.append(container_ext(container_format));
    out
}

/// A folder and file name joined with a single separator, as POSIX paths
/// are written.
pub open spec fn spec_join_path(folder: Seq<char>, name: Seq<char>) -> Seq<char> {
    if folder.len() > 0 && folder[folder.len() - 1] != '/' {
        folder + "/"@ + name
    } else {
        folder + name
    }
}

/// Join an output folder and a file name into one path.
pub fn join_output_path(folder: &str, name: &str) -> (r: String)
    ensures
        r@ == spec_join_path(folder@, name@),
{
    let len = folder.unicode_len();
    let mut out = folder.to_owned();
    if len > 0 && folder.get_char(len - 1) != '/' {
        out.append("/");
        out.append(name);
        proof {
            assert(out@ =~= folder@ + "/"@ + name@);
        }
        out
    } else {
        out.append(name);
        out
    }
}

// ── Time-range validation ───────────────────────────────────────────────

/// The parse error a malformed time expression reports.
pub open spec fn spec_time_err(s: Seq<char>) -> Seq<char> {
    if spec_time_shape_bad(s) {
        "請輸入有效時間格式"@
    } else {
        "無效的時間格式"@
    }
}

/// The error a clip window carries, if any: malformed bounds first, then
/// an end not after the start, then bounds beyond the known duration.
pub open spec fn spec_time_range_error(
    time_range: Option<TimeRange>,
    duration: Option<i64>,
) -> Option<Seq<char>> {
    match time_range {
        None => None,
        Some(tr) => {
            let start_bad = match tr.start {
                Some(st) => spec_parse_time(st@) is None,
                None => false,
            };
            let end_bad = match tr.end {
                Some(en) => spec_parse_time(en@) is None,
                None => false,
            };
            if start_bad {
                match tr.start {
                    Some(st) => Some(spec_time_err(st@)),
                    None => None,
                }
            } else if end_bad {
                match tr.end {
                    Some(en) => Some(spec_time_err(en@)),
                    None => None,
                }
            } else {
                match (tr.start, tr.end) {
                    (Some(st), Some(en)) => {
                        let s = spec_parse_time(st@);
                        let e = spec_parse_time(en@);
                        match (s, e) {
                            (Some(sv), Some(ev)) => {
                                if ev <= sv {
                                    Some("結束時間必須晚於開始時間"@)
                                } else {
                                    match duration {
                                        Some(d) => {
                                            if sv > d as int {
                                                Some("時間超出影片長度"@)
                                            } else if ev > d as int {
                                                Some("時間超出影片長度"@)
                                            } else {
                                                None
                                            }
                                        },
                                        None => None,
                                    }
                                }
                            },
                            _ => None,
                        }
                    },
                    _ => None,
                }
            }
        },
    }
}

/// Validate a download's clip window: both bounds must parse, the end must
/// lie after the start, and neither bound may exceed the known duration.
pub fn validate_time_range(config: &DownloadConfig) -> (r: Result<(), String>)
    ensures
        match r {
            Ok(_) => spec_time_range_error(config.time_range, config.video_info.duration) is None,
            Err(e) => spec_time_range_error(config.time_range, config.video_info.duration)
                == Some(e@),
        },
{
    if let Some(tr) = &config.time_range {
        let start_seconds: Option<i64> = match &tr.start {
            Some(st) => {
                match parse_time_to_seconds(st.as_str()) {
                    Ok(v) => Some(v),
                    Err(e) => {
                        return Err(e);
                    },
                }
            },
            None => None,
        };
        let end_seconds: Option<i64> = match &tr.end {
            Some(en) => {
                match parse_time_to_seconds(en.as_str()) {
                    Ok(v) => Some(v),
                    Err(e) => {
                        return Err(e);
                    },
                }
            },
            None => None,
        };
        if let (Some(start), Some(end)) = (start_seconds, end_seconds) {
            if end <= start {
                return Err("結束時間必須晚於開始時間".to_owned());
            }
            if let Some(duration) = config.video_info.duration {
                if start > duration {
                    return Err("時間超出影片長度".to_owned());
                }
                if end > duration {
                    return Err("時間超出影片長度".to_owned());
                }
            }
        }
    }
    Ok(())
}

// ── Argument composition ────────────────────────────────────────────────

/// The clip-window argument: both bounds normalised to `HH:MM:SS` and
/// joined as one section, a bound that fails to parse counting as zero.
pub open spec fn spec_download_sections(time_range: Option<TimeRange>) -> Option<Seq<char>> {
    match time_range {
        Some(tr) => match (tr.start, tr.end) {
            (Some(st), Some(en)) => {
                let sv = match spec_parse_time(st@) {
                    Some(v) => v,
                    None => 0,
                };
                let ev = match spec_parse_time(en@) {
                    Some(v) => v,
                    None => 0,
                };
                Some("*"@ + spec_normalize_hhmmss(sv) + "-"@ + spec_normalize_hhmmss(ev))
            },
            _ => None,
        },
        None => None,
    }
}

/// Render the clip window as a download-section argument, when one is set.
pub fn download_sections(time_range: &Option<TimeRange>) -> (r: Option<String>)
    ensures
        match r {
            Some(s) => spec_download_sections(*time_range) == Some(s@),
            None => spec_download_sections(*time_range) is None,
        },
{
    proof {
        reveal_strlit("*");
        reveal_strlit("-");
    }
    match time_range {
        Some(tr) => match (&tr.start, &tr.end) {
            (Some(st), Some(en)) => {
                let sv = match parse_time_to_seconds(st.as_str()) {
                    Ok(v) => v,
                    Err(_) => 0,
                };
                let ev = match parse_time_to_seconds(en.as_str()) {
                    Ok(v) => v,
                    Err(_) => 0,
                };
                let mut out = String::new();
                out.append("*");
                let snorm = normalize_time_to_hhmmss(sv);
                out.append(snorm.as_str());
                out.append("-");
                let enorm = normalize_time_to_hhmmss(ev);
                out.append(enorm.as_str());
                proof {
                    assert(out@ =~= "*"@ + spec_normalize_hhmmss(sv as int) + "-"@
                        + spec_normalize_hhmmss(ev as int));
                }
                Some(out)
            },
            _ => None,
        },
        None => None,
    }
}

/// The views of a list of argument strings.
pub open spec fn args_view(v: Seq<String>) -> Seq<Seq<char>> {
    v.map_values(|s: String| s@)
}

/// The argument list for a plain download: line-buffered progress, the
/// format selector and output path, the cookie file for a YouTube source
/// when one is configured, the clip window when one is set, the container
/// remux when one is forced, and the source URL last.
pub open spec fn spec_download_args(
    config: DownloadConfig,
    cookies: Option<String>,
    output_path: Seq<char>,
) -> Seq<Seq<char>> {
    seq!["--newline"@, "--progress"@, "-f"@, config.format_id@, "-o"@, output_path] + (match (
        cookies,
        config.video_info.platform@ == "youtube"@,
    ) {
        (Some(c), true) => seq!["--cookies"@, c@],
        _ => Seq::<Seq<char>>::empty(),
    }) + (match spec_download_sections(config.time_range) {
        Some(s) => seq!["--download-sections"@, s],
        None => Seq::<Seq<char>>::empty(),
    }) + (if config.container_format@ == "auto"@ {
        Seq::<Seq<char>>::empty()
    } else {
        seq!["--remux-video"@, config.container_format@]
    }) + seq![config.url@]
}

/// Compose the capture binary's argument list for a plain download.
pub fn build_download_args(config: &DownloadConfig, cookies: Option<String>) -> (r: Vec<String>)
    ensures
        args_view(r@) == spec_download_args(
            *config,
            cookies,
            spec_join_path(config.output_folder@, config.output_filename@),
        ),
{
    let output_path = join_output_path(
        config.output_folder.as_str(),
        config.output_filename.as_str(),
    );
    let mut args: Vec<String> = Vec::new();
    args.push("--newline".to_owned());
    args.push("--progress".to_owned());
    args.push("-f".to_owned());
    args.push(config.format_id.clone());
    args.push("-o".to_owned());
    args.push(output_path);
    let is_youtube = str_eq(config.video_info.platform.as_str(), "youtube");
    match cookies {
        Some(c) => {
            if is_youtube {
                args.push("--cookies".to_owned());
                args.push(c);
            }
        },
        None => {},
    }
    match download_sections(&config.time_range) {
        Some(s) => {
            args.push("--download-sections".to_owned());
            args.push(s);
        },
        None => {},
    }
    if !str_eq(config.container_format.as_str(), "auto") {
        args.push("--remux-video".to_owned());
        args.push(config.container_format.clone());
    }
    args.push(config.url.clone());
    proof {
        assert(args_view(args@) =~= spec_download_args(
            *config,
            cookies,
            spec_join_path(config.output_folder@, config.output_filename@),
        ));
    }
    args
}

/// The argument list for a live recording: as for a download, but with
/// capture from the stream's start and no clip window.
pub open spec fn spec_recording_args(
    config: DownloadConfig,
    cookies: Option<String>,
    output_path: Seq<char>,
) -> Seq<Seq<char>> {
    seq![
        "--newline"@,
        "--progress"@,
        "-f"@,
        config.format_id@,
        "-o"@,
        output_path,
        "--live-from-start"@,
    ] + (match (cookies, config.video_info.platform@ == "youtube"@) {
        (Some(c), true) => seq!["--cookies"@, c@],
        _ => Seq::<Seq<char>>::empty(),
    }) + (if config.container_format@ == "auto"@ {
        Seq::<Seq<char>>::empty()
    } else {
        seq!["--remux-video"@, config.container_format@]
    }) + seq![config.url@]
}

/// Admission check for a live recording: only a live source may be
/// recorded.
pub fn check_recording_source(is_live: bool) -> (r: Result<(), String>)
    ensures
        is_live ==> r is Ok,
        !is_live ==> (r matches Err(e) && e@ == "此影片不是直播"@),
{
    if is_live {
        Ok(())
    } else {
        Err("此影片不是直播".to_owned())
    }
}

// ── Video info ──────────────────────────────────────────────────────────

/// The quality label a pixel height maps to.
pub fn quality_label_for_height(h: i64) -> (r: &'static str)
    ensures
        h >= 2160 ==> r@ == "4K"@,
        1440 <= h < 2160 ==> r@ == "1440p"@,
        1080 <= h < 1440 ==> r@ == "1080p"@,
        720 <= h < 1080 ==> r@ == "720p"@,
        480 <= h < 720 ==> r@ == "480p"@,
        h < 480 ==> r@ == "360p"@,
{
    if h >= 2160 {
        "4K"
    } else if h >= 1440 {
        "1440p"
    } else if h >= 1080 {
        "1080p"
    } else if h >= 720 {
        "720p"
    } else if h >= 480 {
        "480p"
    } else {
        "360p"
    }
}

/// The content kind a probe's liveness flag maps to.
pub fn youtube_content_type(is_live: bool) -> (r: &'static str)
    ensures
        is_live ==> r@ == "stream"@,
        !is_live ==> r@ == "video"@,
{
    if is_live {
        "stream"
    } else {
        "video"
    }
}

/// A source-quality H.264 entry, as the metadata fallback offers it.
fn source_quality() -> (r: VideoQuality)
    ensures
        r.format_id@ == "source"@,
        r.quality@ == "Source"@,
        r.ext@ == "mp4"@,
        (r.vcodec matches Some(v) && v@ == "h264"@),
        (r.acodec matches Some(a) && a@ == "aac"@),
        r.filesize is None,
{
    VideoQuality {
        format_id: "source".to_owned(),
        quality: "Source".to_owned(),
        ext: "mp4".to_owned(),
        vcodec: Some("h264".to_owned()),
        acodec: Some("aac".to_owned()),
        filesize: None,
    }
}

/// Metadata for a recorded video, a clip or a live channel on the
/// platform that offers no metadata endpoint: titles derived from the
/// identifier, a source quality entry, and for recorded videos one more
/// fixed 720p60 entry.
pub fn fetch_twitch_info(content_type: &crate::urls::ContentType, id: &str) -> (r: Result<
    VideoInfo,
    String,
>)
    ensures
        r matches Ok(v) && v.id@ == id@ && v.thumbnail@ == Seq::<char>::empty() && v.duration
            is None && v.platform@ == "twitch"@ && ({
            match *content_type {
                crate::urls::ContentType::Video => v.title@ == "Twitch VOD "@ + id@ && v.channel@
                    == "Unknown Channel"@ && v.content_type@ == "video"@ && !v.is_live
                    && v.qualities@.len() == 2,
                crate::urls::ContentType::Clip => v.title@ == "Twitch Clip "@ + id@ && v.channel@
                    == "Unknown Channel"@ && v.content_type@ == "clip"@ && !v.is_live
                    && v.qualities@.len() == 1,
                crate::urls::ContentType::Stream => v.title@ == "直播："@ + id@ && v.channel@ == id@
                    && v.content_type@ == "stream"@ && v.is_live && v.qualities@.len() == 1,
            }
        }),
{
    match content_type {
        crate::urls::ContentType::Video => {
            let mut title = "Twitch VOD ".to_owned();
            title.append(id);
            let mut qualities: Vec<VideoQuality> = Vec::new();
            qualities.push(source_quality());
            qualities.push(
                VideoQuality {
                    format_id: "720p60".to_owned(),
                    quality: "720p60".to_owned(),
                    ext: "mp4".to_owned(),
                    vcodec: Some("h264".to_owned()),
                    acodec: Some("aac".to_owned()),
                    filesize: None,
                },
            );
            Ok(
                VideoInfo {
                    id: id.to_owned(),
                    title,
                    channel: "Unknown Channel".to_owned(),
                    thumbnail: String::new(),
                    duration: None,
                    platform: "twitch".to_owned(),
                    content_type: "video".to_owned(),
                    is_live: false,
                    qualities,
                },
            )
        },
        crate::urls::ContentType::Clip => {
            let mut title = "Twitch Clip ".to_owned();
            title.append(id);
            let mut qualities: Vec<VideoQuality> = Vec::new();
            qualities.push(source_quality());
            Ok(
                VideoInfo {
                    id: id.to_owned(),
                    title,
                    channel: "Unknown Channel".to_owned(),
                    thumbnail: String::new(),
                    duration: None,
                    platform: "twitch".to_owned(),
                    content_type: "clip".to_owned(),
                    is_live: false,
                    qualities,
                },
            )
        },
        crate::urls::ContentType::Stream => {
            let mut title = "直播：".to_owned();
            title.append(id);
            let mut qualities: Vec<VideoQuality> = Vec::new();
            qualities.push(source_quality());
            Ok(
                VideoInfo {
                    id: id.to_owned(),
                    title,
                    channel: id.to_owned(),
                    thumbnail: String::new(),
                    duration: None,
                    platform: "twitch".to_owned(),
                    content_type: "stream".to_owned(),
                    is_live: true,
                    qualities,
                },
            )
        },
    }
}

// ── Home expansion and scheduled configuration ──────────────────────────

/// An output directory with a leading `~` expanded to the home directory,
/// when one is known.
pub open spec fn spec_expand_home(dir: Seq<char>, home: Option<String>) -> Seq<char> {
    if dir.len() > 0 && dir[0] == '~' {
        match home {
            Some(h) => h@ + dir.subrange(1, dir.len() as int),
            None => dir,
        }
    } else {
        dir
    }
}

/// Expand a leading `~` in an output directory.
pub fn expand_home(dir: &str, home: Option<String>) -> (r: String)
    ensures
        r@ == spec_expand_home(dir@, home),
{
    let len = dir.unicode_len();
    if len > 0 && dir.get_char(0) == '~' {
        match home {
            Some(h) => {
                let mut out = h;
                out.append(dir.substring_char(1, len));
                out
            },
            None => dir.to_owned(),
        }
    } else {
        dir.to_owned()
    }
}

/// Build the capture configuration for an admitted scheduled task: the
/// stream's synthetic metadata, the preset's format selector, the expanded
/// filename with the container extension, and the expanded output folder.
pub fn make_scheduled_download_config(
    preset: &crate::presets::DownloadPreset,
    task: &crate::sched::ScheduledDownloadTask,
    home: Option<String>,
    date: &str,
    datetime: &str,
) -> (r: DownloadConfig)
    ensures
        r.url == task.stream_url,
        r.video_info.id == task.stream_id,
        r.video_info.title@ == task.channel_name@ + " 直播"@,
        r.video_info.channel == task.channel_name,
        r.video_info.is_live,
        r.video_info.platform == task.platform,
        r.video_info.content_type@ == "stream"@,
        r.video_info.duration is None,
        r.format_id@ == spec_quality_format(preset.quality@, preset.content_type@),
        r.content_type == preset.content_type,
        r.output_filename@ == crate::template::spec_expand_template(
            preset.filename_template@,
            task.channel_name@,
            task.platform@,
            date@,
            datetime@,
        ) + "."@ + spec_container_ext(preset.container_format@),
        r.output_folder@ == spec_expand_home(preset.output_dir@, home),
        r.container_format == preset.container_format,
        r.time_range is None,
        r.video_codec is None,
        r.audio_codec is None,
{
    let mut title = task.channel_name.clone();
    title.append(" 直播");
    let video_info = VideoInfo {
        id: task.stream_id.clone(),
        title,
        channel: task.channel_name.clone(),
        thumbnail: String::new(),
        duration: None,
        platform: task.platform.clone(),
        content_type: "stream".to_owned(),
        is_live: true,
        qualities: Vec::new(),
    };
    let format_id = quality_to_format(preset.quality.as_str(), preset.content_type.as_str());
    let filename = crate::template::expand_filename_template(
        preset.filename_template.as_str(),
        task.channel_name.as_str(),
        task.platform.as_str(),
        date,
        datetime,
    );
    let output_filename = output_filename_with_ext(
        filename.as_str(),
        preset.container_format.as_str(),
    );
    let output_folder = expand_home(preset.output_dir.as_str(), home);
    DownloadConfig {
        url: task.stream_url.clone(),
        video_info,
        format_id,
        content_type: preset.content_type.clone(),
        video_codec: None,
        audio_codec: None,
        output_filename,
        output_folder,
        container_format: preset.container_format.clone(),
        time_range: None,
    }
}

// ── Download history ────────────────────────────────────────────────────

/// The history row a finished run adds: the source and its metadata, the
/// path and size only on completion, the error only when one is given.
pub fn make_history_entry(
    config: &DownloadConfig,
    id: String,
    output_path: &str,
    status: &str,
    error: Option<String>,
    file_size: Option<u64>,
    now_rfc: String,
) -> (r: DownloadHistoryEntry)
    ensures
        r.id == id,
        r.url == config.url,
        r.title == config.video_info.title,
        r.channel == config.video_info.channel,
        r.platform == config.video_info.platform,
        r.content_type == config.video_info.content_type,
        r.status@ == status@,
        r.file_path is Some <==> status@ == "completed"@,
        (r.file_path matches Some(p) ==> p@ == output_path@ && status@ == "completed"@),
        r.file_size == if status@ == "completed"@ {
            file_size
        } else {
            None
        },
        (r.resolution matches Some(res) && res == config.format_id),
        r.started_at == now_rfc,
        (r.completed_at matches Some(c) ==> c == now_rfc && status@ == "completed"@),
        r.completed_at is Some <==> status@ == "completed"@,
        r.error_message == error,
{
    let completed = crate::strutil::str_eq(status, "completed");
    DownloadHistoryEntry {
        id,
        url: config.url.clone(),
        title: config.video_info.title.clone(),
        channel: config.video_info.channel.clone(),
        platform: config.video_info.platform.clone(),
        content_type: config.video_info.content_type.clone(),
        status: status.to_owned(),
        file_path: if completed {
            Some(output_path.to_owned())
        } else {
            None
        },
        file_size: if completed {
            file_size
        } else {
            None
        },
        resolution: Some(config.format_id.clone()),
        started_at: now_rfc.clone(),
        completed_at: if completed {
            Some(now_rfc)
        } else {
            None
        },
        error_message: error,
    }
}

/// What to write back to the history store: the grown list when the
/// existing rows were read, and nothing — leaving the stored rows
/// untouched — when they could not be decoded.
pub fn history_update_plan(existing: Option<Vec<DownloadHistoryEntry>>, entry: DownloadHistoryEntry)
    -> (r: Option<Vec<DownloadHistoryEntry>>)
    ensures
        match existing {
            Some(rows) => (r matches Some(out) && out@ == rows@.push(entry)),
            None => r is None,
        },
{
    match existing {
        Some(mut rows) => {
            rows.push(entry);
            Some(rows)
        },
        None => None,
    }
}

/// Remove the history rows carrying the given id, keeping the order of
/// the rest.
pub open spec fn spec_remove_history(
    rows: Seq<DownloadHistoryEntry>,
    id: Seq<char>,
) -> Seq<DownloadHistoryEntry>
    decreases rows.len(),
{
    if rows.len() == 0 {
        rows
    } else if rows[0].id@ == id {
        spec_remove_history(rows.drop_first(), id)
    } else {
        seq![rows[0]] + spec_remove_history(rows.drop_first(), id)
    }
}

/// An equal copy of a history row, field by field.
pub fn clone_history_entry(e: &DownloadHistoryEntry) -> (r: DownloadHistoryEntry)
    ensures
        r == *e,
{
    let r = DownloadHistoryEntry {
        id: e.id.clone(),
        url: e.url.clone(),
        title: e.title.clone(),
        channel: e.channel.clone(),
        platform: e.platform.clone(),
        content_type: e.content_type.clone(),
        status: e.status.clone(),
        file_path: crate::sched::clone_opt_string(&e.file_path),
        file_size: e.file_size,
        resolution: crate::sched::clone_opt_string(&e.resolution),
        started_at: e.started_at.clone(),
        completed_at: crate::sched::clone_opt_string(&e.completed_at),
        error_message: crate::sched::clone_opt_string(&e.error_message),
    };
    proof {
        assert(r == *e);
    }
    r
}

/// Delete the history rows with the given id.
#[verifier::loop_isolation(false)]
pub fn delete_history_entry(rows: &mut Vec<DownloadHistoryEntry>, id: &str)
    ensures
        final(rows)@ == spec_remove_history(old(rows)@, id@),
{
    let mut kept: Vec<DownloadHistoryEntry> = Vec::new();
    let mut i: usize = 0;
    proof {
        assert(rows@.subrange(0, rows@.len() as int) =~= rows@);
        assert(kept@ + spec_remove_history(rows@, id@) =~= spec_remove_history(rows@, id@));
    }
    while i < rows.len()
        invariant
            rows@ == old(rows)@,
            i <= rows@.len(),
            kept@ + spec_remove_history(rows@.subrange(i as int, rows@.len() as int), id@)
                == spec_remove_history(rows@, id@),
        decreases rows@.len() - i,
    {
        let ghost rest = rows@.subrange(i as int, rows@.len() as int);
        proof {
            assert(rest.drop_first() =~= rows@.subrange(i + 1, rows@.len() as int));
            assert(rest[0] == rows@[i as int]);
        }
        if !crate::strutil::str_eq(rows[i].id.as_str(), id) {
            let ghost prev = kept@;
            let c = clone_history_entry(&rows[i]);
            kept.push(c);
            proof {
                assert(kept@ =~= prev + seq![rows@[i as int]]);
                assert(kept@ + spec_remove_history(
                    rows@.subrange(i + 1, rows@.len() as int),
                    id@,
                ) =~= prev + (seq![rows@[i as int]] + spec_remove_history(
                    rows@.subrange(i + 1, rows@.len() as int),
                    id@,
                )));
            }
        }
        i += 1;
    }
    proof {
        assert(rows@.subrange(rows@.len() as int, rows@.len() as int)
            =~= Seq::<DownloadHistoryEntry>::empty());
        assert(kept@ + Seq::<DownloadHistoryEntry>::empty() =~= kept@);
    }
    *rows = kept;
}

/// Compose the capture binary's argument list for a live recording.
pub fn build_recording_args(config: &DownloadConfig, cookies: Option<String>) -> (r: Vec<String>)
    ensures
        args_view(r@) == spec_recording_args(
            *config,
            cookies,
            spec_join_path(config.output_folder@, config.output_filename@),
        ),
{
    let output_path = join_output_path(
        config.output_folder.as_str(),
        config.output_filename.as_str(),
    );
    let mut args: Vec<String> = Vec::new();
    args.push("--newline".to_owned());
    args.push("--progress".to_owned());
    args.push("-f".to_owned());
    args.push(config.format_id.clone());
    args.push("-o".to_owned());
    args.push(output_path);
    args.push("--live-from-start".to_owned());
    let is_youtube = str_eq(config.video_info.platform.as_str(), "youtube");
    match cookies {
        Some(c) => {
            if is_youtube {
                args.push("--cookies".to_owned());
                args.push(c);
            }
        },
        None => {},
    }
    if !str_eq(config.container_format.as_str(), "auto") {
        args.push("--remux-video".to_owned());
        args.push(config.container_format.clone());
    }
    args.push(config.url.clone());
    proof {
        assert(args_view(args@) =~= spec_recording_args(
            *config,
            cookies,
            spec_join_path(config.output_folder@, config.output_filename@),
        ));
    }
    args
}

} // verus!

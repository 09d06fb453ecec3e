//! Tool and update introspection: picking version numbers out of command
//! output, comparing release tags, listing hardware encoders, and the
//! process-wide operator flags.

use vstd::prelude::*;
use vstd::string::*;

use crate::recorder::{token_end, ws_end};
use crate::strutil::{has_sub, contains_sub, first_idx_from, lemma_first_idx_from, str_eq};

verus! {

/// Versions of the external tools the engine calls.
#[derive(Debug, Clone)]
pub struct ToolVersions {
    pub yt_dlp_version: Option<String>,
    pub ffmpeg_version: Option<String>,
    pub ffprobe_version: Option<String>,
}

/// What an update check found.
#[derive(Debug, Clone)]
pub struct UpdateStatus {
    pub has_update: bool,
    pub current_version: String,
    pub latest_version: Option<String>,
    pub release_notes: Option<String>,
    pub download_url: Option<String>,
}

/// Settings of a transcription run.
#[derive(Debug, Clone)]
pub struct TranscriptionConfig {
    pub input_file: String,
    pub engine: String,
    pub language: String,
    pub model: String,
    pub output_format: String,
    pub hardware_mode: String,
    pub vad_enabled: bool,
    pub demucs_enabled: bool,
    pub enable_punctuation: bool,
    pub max_seconds: i32,
    pub max_chars: i32,
    pub traditional_chinese: bool,
    pub auto_segment: bool,
}

/// The first line of a text: everything before the first newline.
pub open spec fn spec_first_line(s: Seq<char>) -> Seq<char> {
    let n = first_idx_from(s, '\n', 0);
    if n < 0 {
        s
    } else {
        s.subrange(0, n)
    }
}

/// The third whitespace-separated token of the first line of a tool's
/// version banner, where the version number stands.
pub open spec fn spec_version_token(s: Seq<char>) -> Option<Seq<char>> {
    let line = spec_first_line(s);
    let a0 = ws_end(line, 0);
    let e0 = token_end(line, a0);
    if e0 <= a0 {
        None
    } else {
        let a1 = ws_end(line, e0);
        let e1 = token_end(line, a1);
        if e1 <= a1 {
            None
        } else {
            let a2 = ws_end(line, e1);
            let e2 = token_end(line, a2);
            if e2 <= a2 {
                None
            } else {
                Some(line.subrange(a2, e2))
            }
        }
    }
}

/// Pick the version number out of a tool's banner: the third token of its
/// first line.
pub fn extract_version_token(output: &str) -> (r: Option<String>)
    ensures
        match r {
            Some(v) => spec_version_token(output@) == Some(v@),
            None => spec_version_token(output@) is None,
        },
{
    let len = output.unicode_len();
    let line_end = match crate::strutil::find_char_from(output, '\n', 0) {
        Some(n) => n,
        None => len,
    };
    proof {
        lemma_first_idx_from(output@, '\n', 0);
    }
    let line_owned = output.substring_char(0, line_end).to_owned();
    let line = line_owned.as_str();
    proof {
        assert(line@ == spec_first_line(output@));
        crate::recorder::lemma_scan_bounds(line@, 0);
    }
    let a0 = scan_ws(line, 0);
    let e0 = scan_token(line, a0);
    if e0 <= a0 {
        return None;
    }
    let a1 = scan_ws(line, e0);
    let e1 = scan_token(line, a1);
    if e1 <= a1 {
        return None;
    }
    let a2 = scan_ws(line, e1);
    let e2 = scan_token(line, a2);
    if e2 <= a2 {
        return None;
    }
    Some(line.substring_char(a2, e2).to_owned())
}

/// Find the end of the whitespace run starting at `from`.
#[verifier::loop_isolation(false)]
fn scan_ws(s: &str, from: usize) -> (r: usize)
    requires
        from <= s@.len(),
    ensures
        r as int == ws_end(s@, from as int),
        from <= r <= s@.len(),
{
    let len = s.unicode_len();
    let mut j: usize = from;
    while j < len
        invariant
            from <= j <= len,
            ws_end(s@, from as int) == ws_end(s@, j as int),
        decreases len - j,
    {
        let c = s.get_char(j);
        if !(c == ' ' || c == '\t' || c == '\n' || c == '\r') {
            return j;
        }
        j += 1;
    }
    j
}

/// Find the end of the non-whitespace run starting at `from`.
#[verifier::loop_isolation(false)]
fn scan_token(s: &str, from: usize) -> (r: usize)
    requires
        from <= s@.len(),
    ensures
        r as int == token_end(s@, from as int),
        from <= r <= s@.len(),
{
    let len = s.unicode_len();
    let mut j: usize = from;
    while j < len
        invariant
            from <= j <= len,
            token_end(s@, from as int) == token_end(s@, j as int),
        decreases len - j,
    {
        let c = s.get_char(j);
        if c == ' ' || c == '\t' || c == '\n' || c == '\r' {
            return j;
        }
        j += 1;
    }
    j
}

/// A release tag with any leading `v` markers removed, as the comparison
/// reads it.
pub open spec fn spec_strip_v(tag: Seq<char>) -> Seq<char>
    decreases tag.len(),
{
    if tag.len() > 0 && tag[0] == 'v' {
        spec_strip_v(tag.subrange(1, tag.len() as int))
    } else {
        tag
    }
}

/// Remove the leading `v` markers of a release tag.
pub fn strip_v_prefix(tag: &str) -> (r: String)
    ensures
        r@ == spec_strip_v(tag@),
    decreases tag@.len(),
{
    let len = tag.unicode_len();
    if len > 0 && tag.get_char(0) == 'v' {
        strip_v_prefix(tag.substring_char(1, len))
    } else {
        tag.to_owned()
    }
}

/// The update status a release check maps to: an update stands exactly
/// when the stripped latest tag differs from the current version.
pub fn update_status_from_release(
    current_version: String,
    latest_tag: &str,
    release_notes: Option<String>,
    download_url: Option<String>,
) -> (r: UpdateStatus)
    ensures
        r.has_update == (spec_strip_v(latest_tag@) != current_version@),
        r.current_version == current_version,
        (r.latest_version matches Some(v) && v@ == spec_strip_v(latest_tag@)),
        r.release_notes == release_notes,
        r.download_url == download_url,
{
    let latest = strip_v_prefix(latest_tag);
    let has_update = !str_eq(latest.as_str(), current_version.as_str());
    UpdateStatus {
        has_update,
        current_version,
        latest_version: Some(latest),
        release_notes,
        download_url,
    }
}

/// The singleton list of an encoder name when the probe output advertises
/// it, empty otherwise.
pub open spec fn enc_opt(output: Seq<char>, name: Seq<char>) -> Seq<Seq<char>> {
    if has_sub(output, name) {
        seq![name]
    } else {
        Seq::<Seq<char>>::empty()
    }
}

/// The encoder list a probe output yields: automatic selection first, then
/// each known hardware encoder the output advertises, in a fixed order.
pub open spec fn spec_encoders(output: Seq<char>) -> Seq<Seq<char>> {
    seq!["auto"@] + enc_opt(output, "h264_nvenc"@) + enc_opt(output, "hevc_nvenc"@) + enc_opt(
        output,
        "h264_amf"@,
    ) + enc_opt(output, "hevc_amf"@) + enc_opt(output, "h264_qsv"@) + enc_opt(
        output,
        "hevc_qsv"@,
    ) + enc_opt(output, "h264_videotoolbox"@) + enc_opt(output, "hevc_videotoolbox"@)
}

/// List the hardware encoders a probe output advertises, headed by
/// automatic selection.
#[verifier::rlimit(80)]
pub fn encoders_from_output(output: &str) -> (r: Vec<String>)
    ensures
        r@.map_values(|s: String| s@) == spec_encoders(output@),
{
    let mut out: Vec<String> = Vec::new();
    out.push("auto".to_owned());
    proof {
        assert(out@.map_values(|s: String| s@) =~= seq!["auto"@]);
    }
    if contains_sub(output, "h264_nvenc") {
        out.push("h264_nvenc".to_owned());
    }
    proof {
        assert(out@.map_values(|s: String| s@) =~= seq!["auto"@] + enc_opt(
            output@,
            "h264_nvenc"@,
        ));
    }
    let ghost p1 = out@.map_values(|s: String| s@);
    if contains_sub(output, "hevc_nvenc") {
        out.push("hevc_nvenc".to_owned());
    }
    proof {
        assert(out@.map_values(|s: String| s@) =~= p1 + enc_opt(output@, "hevc_nvenc"@));
    }
    let ghost p2 = out@.map_values(|s: String| s@);
    if contains_sub(output, "h264_amf") {
        out.push("h264_amf".to_owned());
    }
    proof {
        assert(out@.map_values(|s: String| s@) =~= p2 + enc_opt(output@, "h264_amf"@));
    }
    let ghost p3 = out@.map_values(|s: String| s@);
    if contains_sub(output, "hevc_amf") {
        out.push("hevc_amf".to_owned());
    }
    proof {
        assert(out@.map_values(|s: String| s@) =~= p3 + enc_opt(output@, "hevc_amf"@));
    }
    let ghost p4 = out@.map_values(|s: String| s@);
    if contains_sub(output, "h264_qsv") {
        out.push("h264_qsv".to_owned());
    }
    proof {
        assert(out@.map_values(|s: String| s@) =~= p4 + enc_opt(output@, "h264_qsv"@));
    }
    let ghost p5 = out@.map_values(|s: String| s@);
    if contains_sub(output, "hevc_qsv") {
        out.push("hevc_qsv".to_owned());
    }
    proof {
        assert(out@.map_values(|s: String| s@) =~= p5 + enc_opt(output@, "hevc_qsv"@));
    }
    let ghost p6 = out@.map_values(|s: String| s@);
    if contains_sub(output, "h264_videotoolbox") {
        out.push("h264_videotoolbox".to_owned());
    }
    proof {
        assert(out@.map_values(|s: String| s@) =~= p6 + enc_opt(output@, "h264_videotoolbox"@));
    }
    let ghost p7 = out@.map_values(|s: String| s@);
    if contains_sub(output, "hevc_videotoolbox") {
        out.push("hevc_videotoolbox".to_owned());
    }
    proof {
        assert(out@.map_values(|s: String| s@) =~= p7 + enc_opt(output@, "hevc_videotoolbox"@));
        assert(out@.map_values(|s: String| s@) =~= spec_encoders(output@));
    }
    out
}

/// The process-wide operator controls.
pub struct MonitoringFlags {
    /// Triggers are suppressed while set; the detectors keep running.
    pub monitoring_paused: bool,
    /// An orderly shutdown may proceed past minimise-to-tray policies.
    pub force_quit: bool,
}

impl MonitoringFlags {
    /// Both controls start cleared.
    pub fn new() -> (r: Self)
        ensures
            !r.monitoring_paused,
            !r.force_quit,
    {
        MonitoringFlags { monitoring_paused: false, force_quit: false }
    }

    /// Set or clear the pause control.
    pub fn set_monitoring_paused(&mut self, paused: bool)
        ensures
            final(self).monitoring_paused == paused,
            final(self).force_quit == old(self).force_quit,
    {
        self.monitoring_paused = paused;
    }

    /// Read the pause control.
    pub fn get_monitoring_paused(&self) -> (r: bool)
        ensures
            r == self.monitoring_paused,
    {
        self.monitoring_paused
    }

    /// Arm the quit control.
    pub fn force_quit(&mut self)
        ensures
            final(self).force_quit,
            final(self).monitoring_paused == old(self).monitoring_paused,
    {
        self.force_quit = true;
    }
}

/// Whether closing the window hides to the tray instead: never once quit
/// is armed, always while an enabled preset keeps monitoring worthwhile,
/// and otherwise as the close-behaviour setting says.
pub fn should_minimize_on_close(
    force_quit: bool,
    has_enabled_presets: bool,
    close_behavior: &str,
) -> (r: bool)
    ensures
        force_quit ==> !r,
        !force_quit && has_enabled_presets ==> r,
        !force_quit && !has_enabled_presets ==> r == (close_behavior@ == "minimize_to_tray"@),
{
    if force_quit {
        false
    } else if has_enabled_presets {
        true
    } else {
        str_eq(close_behavior, "minimize_to_tray")
    }
}

/// The tray label for the pause control: an offer to pause while
/// monitoring runs, an offer to resume while it is paused.
pub fn pause_menu_label(paused: bool) -> (r: &'static str)
    ensures
        paused ==> r@ == "恢復所有監聽"@,
        !paused ==> r@ == "暫停所有監聽"@,
{
    if paused {
        "恢復所有監聽"
    } else {
        "暫停所有監聽"
    }
}

} // verus!

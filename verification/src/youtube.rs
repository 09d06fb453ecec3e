//! The pull-based detector's decisions: feed scanning, the per-cycle
//! response classification, the rate-limit window, and the first-live
//! probe fold.

use vstd::prelude::*;
use vstd::string::*;

use crate::strutil::{
    find_char_from, find_sub_from, first_idx_from, first_sub, lemma_first_idx_from,
    lemma_first_sub, lemma_first_sub_is, occurs_at, spec_trim, trim_str,
};

verus! {

/// How many channels are probed at once.
pub const YOUTUBE_CONCURRENCY: usize = 3;

/// How many recent feed entries are probed per channel.
pub const YOUTUBE_RSS_ENTRIES: usize = 5;

/// Seconds a probe may take before it counts as unknown.
pub const YOUTUBE_PROBE_TIMEOUT_SECS: u64 = 30;

/// Seconds the polling interval stays doubled after a rate limit.
pub const YOUTUBE_RATE_LIMIT_SECS: u64 = 300;

/// State shared between the polling loop and its callers.
pub struct YouTubePollingState {
    pub active: bool,
    /// Channel ids being polled.
    pub polling_channels: Vec<String>,
}

impl YouTubePollingState {
    /// A state with polling inactive and no channels.
    pub fn new() -> (r: Self)
        ensures
            !r.active,
            r.polling_channels@.len() == 0,
    {
        YouTubePollingState { active: false, polling_channels: Vec::new() }
    }
}

// ── Feed scanning ───────────────────────────────────────────────────────

/// The video ids of a feed: after each video-id opening tag, the text up
/// to the next angle bracket, trimmed; empty texts are skipped, and at
/// most `remaining` ids are taken.
pub open spec fn spec_rss_scan(xml: Seq<char>, from: int, remaining: int) -> Seq<Seq<char>>
    decreases xml.len() - from + 1,
        via spec_rss_scan_decreases
{
    if remaining <= 0 || from < 0 {
        Seq::<Seq<char>>::empty()
    } else {
        let p = first_sub(xml, "<yt:videoId>"@, from);
        if p < 0 {
            Seq::<Seq<char>>::empty()
        } else {
            let start = p + 12;
            let q = first_idx_from(xml, '<', start);
            let end = if q < 0 {
                xml.len() as int
            } else {
                q
            };
            let id = spec_trim(xml.subrange(start, end));
            if id.len() > 0 {
                seq![id] + spec_rss_scan(xml, end, remaining - 1)
            } else {
                spec_rss_scan(xml, end, remaining)
            }
        }
    }
}

#[via_fn]
proof fn spec_rss_scan_decreases(xml: Seq<char>, from: int, remaining: int) {
    reveal_strlit("<yt:videoId>");
    if remaining > 0 && from >= 0 {
        lemma_first_sub(xml, "<yt:videoId>"@, from);
        let p = first_sub(xml, "<yt:videoId>"@, from);
        if p >= 0 {
            lemma_first_idx_from(xml, '<', p + 12);
        }
    }
}

/// The views of a list of id strings.
pub open spec fn ids_view(v: Seq<String>) -> Seq<Seq<char>> {
    v.map_values(|s: String| s@)
}

/// Extract up to `max_entries` video ids from an Atom feed.
#[verifier::loop_isolation(false)]
pub fn parse_youtube_rss(xml: &str, max_entries: usize) -> (r: Vec<String>)
    ensures
        ids_view(r@) == spec_rss_scan(xml@, 0, max_entries as int),
        r@.len() <= max_entries,
{
    proof {
        reveal_strlit("<yt:videoId>");
    }
    let len = xml.unicode_len();
    let mut out: Vec<String> = Vec::new();
    let mut from: usize = 0;
    while out.len() < max_entries
        invariant
            from <= len,
            len == xml@.len(),
            out@.len() <= max_entries,
            ids_view(out@) + spec_rss_scan(xml@, from as int, max_entries - out@.len())
                == spec_rss_scan(xml@, 0, max_entries as int),
        decreases len - from + max_entries - out@.len(),
    {
        let p = match find_sub_from(xml, "<yt:videoId>", from) {
            Some(p) => p,
            None => {
                proof {
                    lemma_first_sub(xml@, "<yt:videoId>"@, from as int);
                    if first_sub(xml@, "<yt:videoId>"@, from as int) >= 0 {
                        let i = first_sub(xml@, "<yt:videoId>"@, from as int);
                        assert(!occurs_at(xml@, "<yt:videoId>"@, i));
                    }
                    assert(spec_rss_scan(xml@, from as int, max_entries - out@.len())
                        =~= Seq::<Seq<char>>::empty());
                    assert(ids_view(out@) + Seq::<Seq<char>>::empty() =~= ids_view(out@));
                }
                return out;
            },
        };
        proof {
            lemma_first_sub_is(xml@, "<yt:videoId>"@, from as int, p as int);
        }
        let start = p + 12;
        let end = match find_char_from(xml, '<', start) {
            Some(q) => q,
            None => len,
        };
        proof {
            lemma_first_idx_from(xml@, '<', start as int);
        }
        let id = trim_str(xml.substring_char(start, end));
        let ghost scan_before = spec_rss_scan(xml@, from as int, max_entries - out@.len());
        if id.unicode_len() > 0 {
            let ghost prev = out@;
            out.push(id);
            proof {
                assert(ids_view(out@) =~= ids_view(prev).push(out@[prev.len() as int]@));
                assert(scan_before =~= seq![out@[prev.len() as int]@] + spec_rss_scan(
                    xml@,
                    end as int,
                    max_entries - out@.len(),
                ));
                assert(ids_view(out@) + spec_rss_scan(
                    xml@,
                    end as int,
                    max_entries - out@.len(),
                ) =~= ids_view(prev) + scan_before);
            }
        }
        from = end;
    }
    proof {
        assert(spec_rss_scan(xml@, from as int, 0) =~= Seq::<Seq<char>>::empty());
        assert(ids_view(out@) + Seq::<Seq<char>>::empty() =~= ids_view(out@));
    }
    out
}

// ── Cycle classification ────────────────────────────────────────────────

/// What one channel's feed fetch means for the cycle.
#[derive(Debug)]
pub enum RssOutcome {
    /// The service asked for restraint: double the interval for a while.
    RateLimit,
    /// The channel does not exist — a missing feed and an empty feed mean
    /// the same: disable the preset and report the channel error.
    NotFound,
    /// A passing failure: skip the channel this cycle and retry next.
    SkipCycle,
    /// Fresh entries to probe for liveness, most recent first.
    Candidates(Vec<String>),
}

/// The ghost mirror of `RssOutcome`.
pub enum RssOutcomeSpec {
    RateLimit,
    NotFound,
    SkipCycle,
    Candidates(Seq<Seq<char>>),
}

/// The outcome an executable result corresponds to.
pub open spec fn rss_outcome_view(r: RssOutcome) -> RssOutcomeSpec {
    match r {
        RssOutcome::RateLimit => RssOutcomeSpec::RateLimit,
        RssOutcome::NotFound => RssOutcomeSpec::NotFound,
        RssOutcome::SkipCycle => RssOutcomeSpec::SkipCycle,
        RssOutcome::Candidates(ids) => RssOutcomeSpec::Candidates(ids_view(ids@)),
    }
}

/// What a feed response means: too many requests is a rate limit, a
/// missing channel is invalid, any other failure is skipped, and a
/// successful body is scanned — an empty scan counting as invalid too.
pub open spec fn spec_rss_outcome(status: u16, body: Seq<char>) -> RssOutcomeSpec {
    if status == 429 {
        RssOutcomeSpec::RateLimit
    } else if status == 404 {
        RssOutcomeSpec::NotFound
    } else if !(200 <= status < 300) {
        RssOutcomeSpec::SkipCycle
    } else {
        let ids = spec_rss_scan(body, 0, YOUTUBE_RSS_ENTRIES as int);
        if ids.len() == 0 {
            RssOutcomeSpec::NotFound
        } else {
            RssOutcomeSpec::Candidates(ids)
        }
    }
}

/// Classify one channel's feed response for this cycle.
pub fn classify_rss_response(status: u16, body: &str) -> (r: RssOutcome)
    ensures
        rss_outcome_view(r) == spec_rss_outcome(status, body@),
{
    if status == 429 {
        return RssOutcome::RateLimit;
    }
    if status == 404 {
        return RssOutcome::NotFound;
    }
    if !(200 <= status && status < 300) {
        return RssOutcome::SkipCycle;
    }
    let ids = parse_youtube_rss(body, YOUTUBE_RSS_ENTRIES);
    if ids.len() == 0 {
        proof {
            assert(ids_view(ids@).len() == 0);
        }
        RssOutcome::NotFound
    } else {
        RssOutcome::Candidates(ids)
    }
}

/// A missing feed and a feed with no entries are indistinguishable
/// downstream: both disable the channel.
pub proof fn lemma_empty_feed_like_missing(status_ok: u16, body: Seq<char>)
    requires
        200 <= status_ok < 300,
        status_ok != 429,
        spec_rss_scan(body, 0, YOUTUBE_RSS_ENTRIES as int).len() == 0,
    ensures
        spec_rss_outcome(status_ok, body) == spec_rss_outcome(404, body),
        spec_rss_outcome(404, body) is NotFound,
{
}

// ── Probe folding ───────────────────────────────────────────────────────

/// What a liveness probe's outcome means: a probe that finished in time
/// with a zero exit reports its output's liveness flag; a timeout, a
/// spawn failure or a non-zero exit counts as unknown and is retried the
/// next cycle.
pub fn classify_probe_output(completed: bool, exit_success: bool, output: &[u8]) -> (r: Option<
    bool,
>)
    ensures
        completed && exit_success ==> r == Some(crate::outside::is_live_flag_of(output@)),
        !(completed && exit_success) ==> r is None,
{
    if completed && exit_success {
        Some(crate::outside::extract_is_live(output))
    } else {
        None
    }
}

/// Index of the first probe that reported live; negative when none did.
pub open spec fn first_live_idx(probes: Seq<Option<bool>>) -> int
    decreases probes.len(),
{
    if probes.len() == 0 {
        -1
    } else if probes[0] == Some(true) {
        0
    } else {
        let r = first_live_idx(probes.drop_first());
        if r == -1 {
            -1
        } else {
            r + 1
        }
    }
}

/// The first candidate whose probe reported live, if any: probes that
/// timed out or failed count as unknown and are passed over.
pub fn first_live_video(ids: &Vec<String>, probes: &Vec<Option<bool>>) -> (r: Option<String>)
    requires
        ids@.len() == probes@.len(),
    ensures
        match r {
            Some(v) => first_live_idx(probes@) >= 0 && v == ids@[first_live_idx(probes@)],
            None => first_live_idx(probes@) == -1,
        },
{
    let mut i: usize = 0;
    while i < probes.len()
        invariant
            i <= probes@.len(),
            ids@.len() == probes@.len(),
            forall|j: int| 0 <= j < i ==> probes@[j] != Some(true),
        decreases probes@.len() - i,
    {
        let hit = match probes[i] {
            Some(b) => b,
            None => false,
        };
        if hit {
            proof {
                lemma_first_live_is(probes@, i as int);
            }
            return Some(ids[i].clone());
        }
        i += 1;
    }
    proof {
        lemma_first_live(probes@);
        if first_live_idx(probes@) >= 0 {
            let k = first_live_idx(probes@);
            assert(probes@[k] != Some(true));
        }
    }
    None
}

/// What `first_live_idx` returns.
proof fn lemma_first_live(probes: Seq<Option<bool>>)
    ensures
        first_live_idx(probes) == -1 ==> forall|j: int|
            0 <= j < probes.len() ==> probes[j] != Some(true),
        first_live_idx(probes) != -1 ==> {
            let i = first_live_idx(probes);
            0 <= i < probes.len() && probes[i] == Some(true) && forall|j: int|
                0 <= j < i ==> probes[j] != Some(true)
        },
    decreases probes.len(),
{
    if probes.len() > 0 && probes[0] != Some(true) {
        lemma_first_live(probes.drop_first());
        assert(forall|j: int| 1 <= j < probes.len() ==> probes[j] == probes.drop_first()[j - 1]);
    }
}

/// When a live probe stands at `i` and nowhere earlier, `first_live_idx`
/// returns `i`.
proof fn lemma_first_live_is(probes: Seq<Option<bool>>, i: int)
    requires
        0 <= i < probes.len(),
        probes[i] == Some(true),
        forall|j: int| 0 <= j < i ==> probes[j] != Some(true),
    ensures
        first_live_idx(probes) == i,
    decreases i,
{
    if i > 0 {
        assert(forall|j: int| 1 <= j < probes.len() ==> probes[j] == probes.drop_first()[j - 1]);
        lemma_first_live_is(probes.drop_first(), i - 1);
    }
}

// ── Rate-limit window ───────────────────────────────────────────────────

/// The interval a cycle runs with, and the window state after consulting
/// it: while the window is open the base interval doubles (held at the
/// type's maximum); an elapsed window is cleared.
pub fn effective_interval(base: u32, rate_limit_until: Option<u64>, now: u64) -> (r: (
    u32,
    Option<u64>,
))
    ensures
        match rate_limit_until {
            Some(u) => if now < u {
                r.0 as int == if 2 * base as int <= u32::MAX as int {
                    2 * base as int
                } else {
                    u32::MAX as int
                } && r.1 == Some(u)
            } else {
                r.0 == base && r.1 is None
            },
            None => r.0 == base && r.1 is None,
        },
{
    match rate_limit_until {
        Some(u) => {
            if now < u {
                let doubled = if base > 0x7FFFFFFFu32 {
                    u32::MAX
                } else {
                    base * 2
                };
                (doubled, Some(u))
            } else {
                (base, None)
            }
        },
        None => (base, None),
    }
}

/// The window state after a cycle: a fresh rate limit opens a window for
/// the configured span; an open window stays as it is.
pub fn rate_limit_after_cycle(rate_limit_until: Option<u64>, got_rate_limit: bool, now: u64) -> (r:
    Option<u64>)
    ensures
        match rate_limit_until {
            Some(u) => r == Some(u),
            None => if got_rate_limit {
                r == Some(
                    (if now as int + YOUTUBE_RATE_LIMIT_SECS as int <= u64::MAX as int {
                        (now + YOUTUBE_RATE_LIMIT_SECS) as u64
                    } else {
                        u64::MAX
                    }),
                )
            } else {
                r is None
            },
        },
{
    match rate_limit_until {
        Some(u) => Some(u),
        None => {
            if got_rate_limit {
                Some(now.saturating_add(YOUTUBE_RATE_LIMIT_SECS))
            } else {
                None
            }
        },
    }
}

/// Whether this cycle sends the one disruption notification of an outage,
/// and the flag to carry into the next cycle: the notification goes out on
/// the first fresh rate limit only, and the flag clears once the window
/// has passed without a new rate limit.
pub fn polling_notify_decision(
    got_rate_limit: bool,
    window_open_before: bool,
    notified: bool,
) -> (r: (bool, bool))
    ensures
        r.0 == (got_rate_limit && !window_open_before && !notified),
        r.1 == if got_rate_limit && !window_open_before {
            true
        } else if !got_rate_limit && !window_open_before {
            false
        } else {
            notified
        },
{
    let send = got_rate_limit && !window_open_before && !notified;
    let next = if got_rate_limit && !window_open_before {
        true
    } else if !got_rate_limit && !window_open_before {
        false
    } else {
        notified
    };
    (send, next)
}

/// The watch URL of a video id.
pub fn youtube_watch_url(video_id: &str) -> (r: String)
    ensures
        r@ == "https://www.youtube.com/watch?v="@ + video_id@,
{
    let mut out = "https://www.youtube.com/watch?v=".to_owned();
    out.append(video_id);
    out
}

/// The feed URL of a channel id.
pub fn youtube_rss_url(channel_id: &str) -> (r: String)
    ensures
        r@ == "https://www.youtube.com/feeds/videos.xml?channel_id="@ + channel_id@,
{
    let mut out = "https://www.youtube.com/feeds/videos.xml?channel_id=".to_owned();
    out.append(channel_id);
    out
}

/// The message a missing channel reports.
pub fn channel_not_found_message() -> (r: String)
    ensures
        r@ == "頻道不存在"@,
{
    "頻道不存在".to_owned()
}

} // verus!

//! Recognition of source URLs: which platform a link belongs to, what kind
//! of content it names, and the content's identifier.

use vstd::prelude::*;
use vstd::string::*;

use crate::recorder::{digit_end, scan_digit_end};
use crate::strutil::{
    first_idx_from, is_digit, lemma_first_idx_from, match_at, occurs_at, spec_trim, trim_str,
};

verus! {

/// Source platform of a recognised link.
#[derive(Debug, Clone, Copy, PartialEq, Eq, Structural)]
pub enum Platform {
    YouTube,
    Twitch,
}

/// Kind of content a recognised link names.
#[derive(Debug, Clone, Copy, PartialEq, Eq, Structural)]
pub enum ContentType {
    Video,
    Stream,
    Clip,
}

/// A recognised link.
pub struct ParsedUrl {
    pub platform: Platform,
    pub content_type: ContentType,
    pub id: String,
}

/// A character a video or clip identifier may hold.
pub open spec fn is_id_char(c: char) -> bool {
    ('a' <= c && c <= 'z') || ('A' <= c && c <= 'Z') || ('0' <= c && c <= '9') || c == '_' || c
        == '-'
}

/// First position at or after `i` that holds no identifier character.
pub open spec fn id_end(s: Seq<char>, i: int) -> int
    decreases s.len() - i,
{
    if 0 <= i < s.len() && is_id_char(s[i]) {
        id_end(s, i + 1)
    } else {
        i
    }
}

/// Scanning for the end of an identifier never moves backwards and never
/// leaves the string.
pub proof fn lemma_id_end(s: Seq<char>, i: int)
    requires
        0 <= i <= s.len(),
    ensures
        i <= id_end(s, i) <= s.len(),
    decreases s.len() - i,
{
    if i < s.len() && is_id_char(s[i]) {
        lemma_id_end(s, i + 1);
    }
}

/// Find the end of the identifier run starting at `from`.
#[verifier::loop_isolation(false)]
fn scan_id_end(s: &str, from: usize) -> (r: usize)
    requires
        from <= s@.len(),
    ensures
        r as int == id_end(s@, from as int),
        from <= r <= s@.len(),
{
    let len = s.unicode_len();
    let mut j: usize = from;
    while j < len
        invariant
            from <= j <= len,
            id_end(s@, from as int) == id_end(s@, j as int),
        decreases len - j,
    {
        let c = s.get_char(j);
        if !(('a' <= c && c <= 'z') || ('A' <= c && c <= 'Z') || ('0' <= c && c <= '9') || c == '_'
            || c == '-') {
            return j;
        }
        j += 1;
    }
    j
}

/// Eleven identifier characters stand at `i`.
pub open spec fn id11_at(s: Seq<char>, i: int) -> bool {
    i + 11 <= s.len() && forall|j: int| i <= j < i + 11 ==> is_id_char(s[j])
}

/// Whether eleven identifier characters stand at `i`.
fn check_id11(s: &str, i: usize) -> (r: bool)
    requires
        i <= s@.len(),
    ensures
        r == id11_at(s@, i as int),
{
    let len = s.unicode_len();
    if len - i < 11 {
        return false;
    }
    let e = scan_id_end(s, i);
    proof {
        lemma_id_end_chars(s@, i as int);
    }
    if e >= i + 11 {
        true
    } else {
        proof {
            if id11_at(s@, i as int) {
                lemma_id_end_at_least(s@, i as int, i + 11);
            }
        }
        false
    }
}

/// Everything before the end of an identifier run is an identifier
/// character.
proof fn lemma_id_end_chars(s: Seq<char>, i: int)
    requires
        0 <= i <= s.len(),
    ensures
        forall|j: int| i <= j < id_end(s, i) ==> is_id_char(s[j]),
    decreases s.len() - i,
{
    if i < s.len() && is_id_char(s[i]) {
        lemma_id_end_chars(s, i + 1);
    }
}

/// A run of identifier characters up to `e` keeps the scan going to at
/// least `e`.
proof fn lemma_id_end_at_least(s: Seq<char>, i: int, e: int)
    requires
        0 <= i <= e <= s.len(),
        forall|j: int| i <= j < e ==> is_id_char(s[j]),
    ensures
        id_end(s, i) >= e,
    decreases e - i,
{
    if i < e {
        lemma_id_end_at_least(s, i + 1, e);
    } else {
        lemma_id_end(s, i);
    }
}

// ── The six link shapes ─────────────────────────────────────────────────

/// A watch link stands at `i`: either host's watch path followed by an
/// eleven-character video id. The id starts where the path ends.
pub open spec fn watch_id_start(s: Seq<char>, i: int) -> int {
    if occurs_at(s, "youtube.com/watch?v="@, i) && id11_at(s, i + 20) {
        i + 20
    } else if occurs_at(s, "youtu.be/watch?v="@, i) && id11_at(s, i + 17) {
        i + 17
    } else {
        -1
    }
}

/// Position of the id of the first watch link at or after `i`; negative
/// when none stands anywhere.
pub open spec fn find_watch(s: Seq<char>, i: int) -> int
    decreases s.len() - i + 1,
{
    if i < 0 || i > s.len() {
        -1
    } else if watch_id_start(s, i) >= 0 {
        watch_id_start(s, i)
    } else if i == s.len() {
        -1
    } else {
        find_watch(s, i + 1)
    }
}

/// Whether a watch link stands at `i`, and where its id starts.
fn check_watch(s: &str, i: usize) -> (r: Option<usize>)
    requires
        i <= s@.len(),
    ensures
        match r {
            Some(p) => watch_id_start(s@, i as int) == p as int && i <= p && p + 11 <= s@.len(),
            None => watch_id_start(s@, i as int) == -1,
        },
{
    proof {
        reveal_strlit("youtube.com/watch?v=");
        reveal_strlit("youtu.be/watch?v=");
    }
    let len = s.unicode_len();
    if match_at(s, "youtube.com/watch?v=", i) {
        proof {
            assert(i + 20 <= s@.len());
        }
        if check_id11(s, i + 20) {
            return Some(i + 20);
        }
    }
    if match_at(s, "youtu.be/watch?v=", i) {
        proof {
            assert(i + 17 <= s@.len());
        }
        if check_id11(s, i + 17) {
            return Some(i + 17);
        }
    }
    None
}

/// Find the first watch link at or after `start`.
fn search_watch(s: &str, start: usize) -> (r: Option<usize>)
    requires
        start <= s@.len(),
    ensures
        match r {
            Some(p) => find_watch(s@, start as int) == p as int && p + 11 <= s@.len(),
            None => find_watch(s@, start as int) == -1,
        },
    decreases s@.len() - start,
{
    match check_watch(s, start) {
        Some(p) => Some(p),
        None => {
            if start == s.unicode_len() {
                None
            } else {
                search_watch(s, start + 1)
            }
        },
    }
}

/// A short link stands at `i`: the short host followed by an
/// eleven-character video id.
pub open spec fn short_at(s: Seq<char>, i: int) -> bool {
    occurs_at(s, "youtu.be/"@, i) && id11_at(s, i + 9)
}

/// Position of the first short link at or after `i`.
pub open spec fn find_short(s: Seq<char>, i: int) -> int
    decreases s.len() - i + 1,
{
    if i < 0 || i > s.len() {
        -1
    } else if short_at(s, i) {
        i
    } else if i == s.len() {
        -1
    } else {
        find_short(s, i + 1)
    }
}

/// Find the first short link at or after `start`.
fn search_short(s: &str, start: usize) -> (r: Option<usize>)
    requires
        start <= s@.len(),
    ensures
        match r {
            Some(p) => find_short(s@, start as int) == p as int && short_at(s@, p as int) && p + 20
                <= s@.len(),
            None => find_short(s@, start as int) == -1,
        },
    decreases s@.len() - start,
{
    proof {
        reveal_strlit("youtu.be/");
    }
    let len = s.unicode_len();
    if match_at(s, "youtu.be/", start) {
        proof {
            assert(start + 9 <= s@.len());
        }
        if check_id11(s, start + 9) {
            return Some(start);
        }
    }
    if start == len {
        None
    } else {
        search_short(s, start + 1)
    }
}

/// A live link stands at `i`: the live path followed by an
/// eleven-character video id.
pub open spec fn live_at(s: Seq<char>, i: int) -> bool {
    occurs_at(s, "youtube.com/live/"@, i) && id11_at(s, i + 17)
}

/// Position of the first live link at or after `i`.
pub open spec fn find_live(s: Seq<char>, i: int) -> int
    decreases s.len() - i + 1,
{
    if i < 0 || i > s.len() {
        -1
    } else if live_at(s, i) {
        i
    } else if i == s.len() {
        -1
    } else {
        find_live(s, i + 1)
    }
}

/// Find the first live link at or after `start`.
fn search_live(s: &str, start: usize) -> (r: Option<usize>)
    requires
        start <= s@.len(),
    ensures
        match r {
            Some(p) => find_live(s@, start as int) == p as int && live_at(s@, p as int) && p + 28
                <= s@.len(),
            None => find_live(s@, start as int) == -1,
        },
    decreases s@.len() - start,
{
    proof {
        reveal_strlit("youtube.com/live/");
    }
    let len = s.unicode_len();
    if match_at(s, "youtube.com/live/", start) {
        proof {
            assert(start + 17 <= s@.len());
        }
        if check_id11(s, start + 17) {
            return Some(start);
        }
    }
    if start == len {
        None
    } else {
        search_live(s, start + 1)
    }
}

/// A recorded-video link stands at `i`: the videos path followed by at
/// least one digit.
pub open spec fn tv_video_at(s: Seq<char>, i: int) -> bool {
    occurs_at(s, "twitch.tv/videos/"@, i) && i + 17 < s.len() && is_digit(s[i + 17])
}

/// Position of the first recorded-video link at or after `i`.
pub open spec fn find_tv_video(s: Seq<char>, i: int) -> int
    decreases s.len() - i + 1,
{
    if i < 0 || i > s.len() {
        -1
    } else if tv_video_at(s, i) {
        i
    } else if i == s.len() {
        -1
    } else {
        find_tv_video(s, i + 1)
    }
}

/// Find the first recorded-video link at or after `start`.
fn search_tv_video(s: &str, start: usize) -> (r: Option<usize>)
    requires
        start <= s@.len(),
    ensures
        match r {
            Some(p) => find_tv_video(s@, start as int) == p as int && tv_video_at(s@, p as int) && p
                + 17 < s@.len(),
            None => find_tv_video(s@, start as int) == -1,
        },
    decreases s@.len() - start,
{
    proof {
        reveal_strlit("twitch.tv/videos/");
    }
    let len = s.unicode_len();
    let digit_follows = if match_at(s, "twitch.tv/videos/", start) && len - start > 17 {
        let c = s.get_char(start + 17);
        '0' <= c && c <= '9'
    } else {
        false
    };
    if digit_follows {
        Some(start)
    } else if start == len {
        None
    } else {
        search_tv_video(s, start + 1)
    }
}

/// A clip link stands at `i`, and its id starts where the clip path ends:
/// either the main host with a channel segment and a clip path, or the
/// clips host directly.
pub open spec fn clip_id_start(s: Seq<char>, i: int) -> int {
    if occurs_at(s, "twitch.tv/"@, i) && ({
        let q = first_idx_from(s, '/', i + 10);
        q > i + 10 && occurs_at(s, "/clip/"@, q) && q + 6 < s.len() && is_id_char(s[q + 6])
    }) {
        first_idx_from(s, '/', i + 10) + 6
    } else if occurs_at(s, "clips.twitch.tv/"@, i) && i + 16 < s.len() && is_id_char(s[i + 16]) {
        i + 16
    } else {
        -1
    }
}

/// Position of the id of the first clip link at or after `i`.
pub open spec fn find_clip(s: Seq<char>, i: int) -> int
    decreases s.len() - i + 1,
{
    if i < 0 || i > s.len() {
        -1
    } else if clip_id_start(s, i) >= 0 {
        clip_id_start(s, i)
    } else if i == s.len() {
        -1
    } else {
        find_clip(s, i + 1)
    }
}

/// Whether a clip link stands at `i`, and where its id starts.
fn check_clip(s: &str, i: usize) -> (r: Option<usize>)
    requires
        i <= s@.len(),
    ensures
        match r {
            Some(p) => clip_id_start(s@, i as int) == p as int && (p as int) < s@.len() && is_id_char(
                s@[p as int],
            ),
            None => clip_id_start(s@, i as int) == -1,
        },
{
    proof {
        reveal_strlit("twitch.tv/");
        reveal_strlit("/clip/");
        reveal_strlit("clips.twitch.tv/");
    }
    let len = s.unicode_len();
    if match_at(s, "twitch.tv/", i) {
        match crate::strutil::find_char_from(s, '/', i + 10) {
            Some(q) => {
                proof {
                    lemma_first_idx_from(s@, '/', i + 10);
                }
                if q > i + 10 && match_at(s, "/clip/", q) && len - q > 6 {
                    let c = s.get_char(q + 6);
                    if ('a' <= c && c <= 'z') || ('A' <= c && c <= 'Z') || ('0' <= c && c <= '9')
                        || c == '_' || c == '-' {
                        return Some(q + 6);
                    }
                }
            },
            None => {},
        }
    }
    if match_at(s, "clips.twitch.tv/", i) && len - i > 16 {
        let c = s.get_char(i + 16);
        if ('a' <= c && c <= 'z') || ('A' <= c && c <= 'Z') || ('0' <= c && c <= '9') || c == '_'
            || c == '-' {
            return Some(i + 16);
        }
    }
    None
}

/// Find the first clip link at or after `start`.
fn search_clip(s: &str, start: usize) -> (r: Option<usize>)
    requires
        start <= s@.len(),
    ensures
        match r {
            Some(p) => find_clip(s@, start as int) == p as int && (p as int) < s@.len()
                && is_id_char(s@[p as int]),
            None => find_clip(s@, start as int) == -1,
        },
    decreases s@.len() - start,
{
    match check_clip(s, start) {
        Some(p) => Some(p),
        None => {
            if start == s.unicode_len() {
                None
            } else {
                search_clip(s, start + 1)
            }
        },
    }
}

/// A channel link stands at `i`: the main host followed by a non-empty
/// identifier run that ends at a slash or at the end of the text.
pub open spec fn channel_at(s: Seq<char>, i: int) -> bool {
    occurs_at(s, "twitch.tv/"@, i) && i + 10 < s.len() && is_id_char(s[i + 10]) && ({
        let e = id_end(s, i + 10);
        e == s.len() || s[e] == '/'
    })
}

/// Position of the first channel link at or after `i`.
pub open spec fn find_channel(s: Seq<char>, i: int) -> int
    decreases s.len() - i + 1,
{
    if i < 0 || i > s.len() {
        -1
    } else if channel_at(s, i) {
        i
    } else if i == s.len() {
        -1
    } else {
        find_channel(s, i + 1)
    }
}

/// Find the first channel link at or after `start`.
fn search_channel(s: &str, start: usize) -> (r: Option<usize>)
    requires
        start <= s@.len(),
    ensures
        match r {
            Some(p) => find_channel(s@, start as int) == p as int && channel_at(s@, p as int) && p
                + 10 < s@.len(),
            None => find_channel(s@, start as int) == -1,
        },
    decreases s@.len() - start,
{
    proof {
        reveal_strlit("twitch.tv/");
    }
    let len = s.unicode_len();
    let stands = if match_at(s, "twitch.tv/", start) && len - start > 10 {
        let c = s.get_char(start + 10);
        if ('a' <= c && c <= 'z') || ('A' <= c && c <= 'Z') || ('0' <= c && c <= '9') || c == '_'
            || c == '-' {
            let e = scan_id_end(s, start + 10);
            e == len || s.get_char(e) == '/'
        } else {
            false
        }
    } else {
        false
    };
    if stands {
        Some(start)
    } else if start == len {
        None
    } else {
        search_channel(s, start + 1)
    }
}

// ── Recognition ─────────────────────────────────────────────────────────

/// What a trimmed link denotes, trying each shape in order: a watch link,
/// a short link, a live link, a recorded twitch video, a twitch clip, and
/// last a twitch channel.
pub open spec fn spec_parse_url(t: Seq<char>) -> Option<(Platform, ContentType, Seq<char>)> {
    let w = find_watch(t, 0);
    if w >= 0 {
        Some((Platform::YouTube, ContentType::Video, t.subrange(w, w + 11)))
    } else {
        let sh = find_short(t, 0);
        if sh >= 0 {
            Some((Platform::YouTube, ContentType::Video, t.subrange(sh + 9, sh + 20)))
        } else {
            let lv = find_live(t, 0);
            if lv >= 0 {
                Some((Platform::YouTube, ContentType::Stream, t.subrange(lv + 17, lv + 28)))
            } else {
                let tv = find_tv_video(t, 0);
                if tv >= 0 {
                    Some(
                        (
                            Platform::Twitch,
                            ContentType::Video,
                            t.subrange(tv + 17, digit_end(t, tv + 17)),
                        ),
                    )
                } else {
                    let cl = find_clip(t, 0);
                    if cl >= 0 {
                        Some((Platform::Twitch, ContentType::Clip, t.subrange(cl, id_end(t, cl))))
                    } else {
                        let ch = find_channel(t, 0);
                        if ch >= 0 {
                            Some(
                                (
                                    Platform::Twitch,
                                    ContentType::Stream,
                                    t.subrange(ch + 10, id_end(t, ch + 10)),
                                ),
                            )
                        } else {
                            None
                        }
                    }
                }
            }
        }
    }
}

// ── Channel resolution ──────────────────────────────────────────────────

/// A character a channel login may hold.
pub open spec fn is_login_char(c: char) -> bool {
    ('a' <= c && c <= 'z') || ('A' <= c && c <= 'Z') || ('0' <= c && c <= '9') || c == '_'
}

/// First position at or after `i` that holds no login character.
pub open spec fn login_end(s: Seq<char>, i: int) -> int
    decreases s.len() - i,
{
    if 0 <= i < s.len() && is_login_char(s[i]) {
        login_end(s, i + 1)
    } else {
        i
    }
}

/// Find the end of the login run starting at `from`.
#[verifier::loop_isolation(false)]
fn scan_login_end(s: &str, from: usize) -> (r: usize)
    requires
        from <= s@.len(),
    ensures
        r as int == login_end(s@, from as int),
        from <= r <= s@.len(),
{
    let len = s.unicode_len();
    let mut j: usize = from;
    while j < len
        invariant
            from <= j <= len,
            login_end(s@, from as int) == login_end(s@, j as int),
        decreases len - j,
    {
        let c = s.get_char(j);
        if !(('a' <= c && c <= 'z') || ('A' <= c && c <= 'Z') || ('0' <= c && c <= '9') || c
            == '_') {
            return j;
        }
        j += 1;
    }
    j
}

/// A channel login stands at `i`: the main host followed by at least one
/// login character.
pub open spec fn login_at(s: Seq<char>, i: int) -> bool {
    occurs_at(s, "twitch.tv/"@, i) && i + 10 < s.len() && is_login_char(s[i + 10])
}

/// Position of the first channel login at or after `i`.
pub open spec fn find_login(s: Seq<char>, i: int) -> int
    decreases s.len() - i + 1,
{
    if i < 0 || i > s.len() {
        -1
    } else if login_at(s, i) {
        i
    } else if i == s.len() {
        -1
    } else {
        find_login(s, i + 1)
    }
}

/// Find the first channel login at or after `start`.
fn search_login(s: &str, start: usize) -> (r: Option<usize>)
    requires
        start <= s@.len(),
    ensures
        match r {
            Some(p) => find_login(s@, start as int) == p as int && login_at(s@, p as int) && p + 10
                < s@.len(),
            None => find_login(s@, start as int) == -1,
        },
    decreases s@.len() - start,
{
    proof {
        reveal_strlit("twitch.tv/");
    }
    let len = s.unicode_len();
    let stands = if match_at(s, "twitch.tv/", start) && len - start > 10 {
        let c = s.get_char(start + 10);
        ('a' <= c && c <= 'z') || ('A' <= c && c <= 'Z') || ('0' <= c && c <= '9') || c == '_'
    } else {
        false
    };
    if stands {
        Some(start)
    } else if start == len {
        None
    } else {
        search_login(s, start + 1)
    }
}

/// The platform a channel page belongs to and the login its address
/// carries: any address naming the video host is its platform; otherwise
/// any address naming the stream host is the other, with the first login
/// after the host, when one follows.
pub open spec fn spec_classify_channel(t: Seq<char>) -> Option<(Platform, Option<Seq<char>>)> {
    if crate::strutil::has_sub(t, "youtube.com"@) {
        Some((Platform::YouTube, None))
    } else if crate::strutil::has_sub(t, "twitch.tv"@) {
        let p = find_login(t, 0);
        if p >= 0 {
            Some((Platform::Twitch, Some(t.subrange(p + 10, login_end(t, p + 10)))))
        } else {
            Some((Platform::Twitch, None))
        }
    } else {
        None
    }
}

/// Classify a channel address after trimming it; an address naming
/// neither host is not recognised.
pub fn classify_channel_url(url: &str) -> (r: Result<(Platform, Option<String>), String>)
    ensures
        match r {
            Ok(p) => ({
                let c = spec_classify_channel(spec_trim(url@));
                c matches Some(parts) && parts.0 == p.0 && (match (p.1, parts.1) {
                    (Some(l), Some(sl)) => l@ == sl,
                    (None, None) => true,
                    _ => false,
                })
            }),
            Err(e) => spec_classify_channel(spec_trim(url@)) is None && e@ == "無法辨識此頻道"@,
        },
{
    let trimmed = trim_str(url);
    let t = trimmed.as_str();
    if crate::strutil::contains_sub(t, "youtube.com") {
        return Ok((Platform::YouTube, None));
    }
    if crate::strutil::contains_sub(t, "twitch.tv") {
        match search_login(t, 0) {
            Some(p) => {
                let tlen = t.unicode_len();
                proof {
                    assert(p + 10 < tlen);
                }
                let e = scan_login_end(t, p + 10);
                return Ok((Platform::Twitch, Some(t.substring_char(p + 10, e).to_owned())));
            },
            None => {
                return Ok((Platform::Twitch, None));
            },
        }
    }
    Err("無法辨識此頻道".to_owned())
}

/// The channel identity the resolver reports from the metadata fields and
/// the address's login: the first present id field, falling back to the
/// login; the first present name field, falling back to the login, then to
/// an unknown marker; no id and no login is not recognised.
pub fn channel_info_from_fields(
    platform: Platform,
    channel_id: Option<String>,
    channel_name: Option<String>,
    url_login: Option<String>,
) -> (r: Result<crate::presets::ChannelInfo, String>)
    ensures
        match r {
            Ok(info) => ({
                &&& (channel_id matches Some(cid) ==> info.channel_id == cid)
                &&& (channel_id is None ==> (url_login matches Some(l) && info.channel_id == l))
                &&& (channel_name matches Some(n) ==> info.channel_name == n)
                &&& (channel_name is None ==> (url_login matches Some(l) ==> info.channel_name
                    == l))
                &&& (channel_name is None && url_login is None ==> info.channel_name@
                    == "Unknown"@)
                &&& (platform is YouTube ==> info.platform@ == "youtube"@)
                &&& (platform is Twitch ==> info.platform@ == "twitch"@)
            }),
            Err(e) => channel_id is None && url_login is None && e@ == "無法辨識此頻道"@,
        },
{
    let login_for_name = crate::sched::clone_opt_string(&url_login);
    let resolved_id = match channel_id {
        Some(cid) => cid,
        None => {
            match url_login {
                Some(l) => l,
                None => {
                    return Err("無法辨識此頻道".to_owned());
                },
            }
        },
    };
    let resolved_name = match channel_name {
        Some(n) => n,
        None => {
            match login_for_name {
                Some(l) => l,
                None => "Unknown".to_owned(),
            }
        },
    };
    let platform_name = match platform {
        Platform::YouTube => "youtube".to_owned(),
        Platform::Twitch => "twitch".to_owned(),
    };
    Ok(
        crate::presets::ChannelInfo {
            channel_id: resolved_id,
            channel_name: resolved_name,
            platform: platform_name,
        },
    )
}

/// Recognise a link after trimming it: its platform, its content kind, and
/// its identifier.
pub fn parse_url(url: &str) -> (r: Result<ParsedUrl, String>)
    ensures
        match r {
            Ok(p) => spec_parse_url(spec_trim(url@)) == Some((p.platform, p.content_type, p.id@)),
            Err(e) => spec_parse_url(spec_trim(url@)) is None && e@ == "不支援的連結格式"@,
        },
{
    let trimmed = trim_str(url);
    let t = trimmed.as_str();
    let len = t.unicode_len();
    if let Some(w) = search_watch(t, 0) {
        return Ok(
            ParsedUrl {
                platform: Platform::YouTube,
                content_type: ContentType::Video,
                id: t.substring_char(w, w + 11).to_owned(),
            },
        );
    }
    if let Some(sh) = search_short(t, 0) {
        return Ok(
            ParsedUrl {
                platform: Platform::YouTube,
                content_type: ContentType::Video,
                id: t.substring_char(sh + 9, sh + 20).to_owned(),
            },
        );
    }
    if let Some(lv) = search_live(t, 0) {
        return Ok(
            ParsedUrl {
                platform: Platform::YouTube,
                content_type: ContentType::Stream,
                id: t.substring_char(lv + 17, lv + 28).to_owned(),
            },
        );
    }
    if let Some(tv) = search_tv_video(t, 0) {
        let e = scan_digit_end(t, tv + 17);
        return Ok(
            ParsedUrl {
                platform: Platform::Twitch,
                content_type: ContentType::Video,
                id: t.substring_char(tv + 17, e).to_owned(),
            },
        );
    }
    if let Some(cl) = search_clip(t, 0) {
        let e = scan_id_end(t, cl);
        return Ok(
            ParsedUrl {
                platform: Platform::Twitch,
                content_type: ContentType::Clip,
                id: t.substring_char(cl, e).to_owned(),
            },
        );
    }
    if let Some(ch) = search_channel(t, 0) {
        let e = scan_id_end(t, ch + 10);
        return Ok(
            ParsedUrl {
                platform: Platform::Twitch,
                content_type: ContentType::Stream,
                id: t.substring_char(ch + 10, e).to_owned(),
            },
        );
    }
    Err("不支援的連結格式".to_owned())
}

} // verus!

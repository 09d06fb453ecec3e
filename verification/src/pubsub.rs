//! The push-based detector's decisions: topic naming and batching, the
//! reconnection back-off, and the classification of incoming frames into
//! stream events.

use vstd::prelude::*;
use vstd::string::*;

use crate::presets::DownloadPreset;
use crate::strutil::{match_at, occurs_at, str_eq};

verus! {

/// Most topics one detector connection may carry.
pub const PUBSUB_MAX_TOPICS: usize = 50;

/// Seconds between keep-alive frames on a connection.
pub const PUBSUB_PING_SECS: u64 = 240;

/// First back-off delay after a disconnect, in seconds.
pub const PUBSUB_BACKOFF_START_SECS: u64 = 1;

/// Largest back-off delay, in seconds.
pub const PUBSUB_BACKOFF_CAP_SECS: u64 = 120;

/// State shared between the detector's connections and its callers.
pub struct TwitchPubSubState {
    /// Channel ids currently subscribed.
    pub subscribed_channels: Vec<String>,
    /// Whether a connection currently stands.
    pub connected: bool,
}

impl TwitchPubSubState {
    /// A state with no subscriptions and no connection.
    pub fn new() -> (r: Self)
        ensures
            r.subscribed_channels@.len() == 0,
            !r.connected,
    {
        TwitchPubSubState { subscribed_channels: Vec::new(), connected: false }
    }
}

/// The back-off delay that follows `current` after one more failure:
/// doubled, capped at the maximum.
pub fn next_backoff(current: u64) -> (r: u64)
    ensures
        r as int == if 2 * current as int <= PUBSUB_BACKOFF_CAP_SECS as int {
            2 * current as int
        } else {
            PUBSUB_BACKOFF_CAP_SECS as int
        },
{
    if current >= 60 {
        PUBSUB_BACKOFF_CAP_SECS
    } else {
        current * 2
    }
}

/// Whether an outage sends its one disruption notification now, and the
/// latch to carry forward: a disconnect notifies only when the latch is
/// clear and then sets it; a successful connection clears it, so the next
/// outage notifies again.
pub fn disconnect_notice_decision(connected: bool, notified: bool) -> (r: (bool, bool))
    ensures
        connected ==> !r.0 && !r.1,
        !connected ==> r.0 == !notified && r.1,
{
    if connected {
        (false, false)
    } else {
        (!notified, true)
    }
}

/// The playback topic of a channel.
pub open spec fn spec_topic_of(channel_id: Seq<char>) -> Seq<char> {
    "video-playback-by-id."@ + channel_id
}

/// Build the playback topic of a channel.
pub fn topic_of(channel_id: &str) -> (r: String)
    ensures
        r@ == spec_topic_of(channel_id@),
{
    let mut out = "video-playback-by-id.".to_owned();
    out.append(channel_id);
    out
}

/// The channel id a playback topic names: what follows the topic prefix,
/// or empty when the prefix is absent.
pub open spec fn spec_topic_channel(topic: Seq<char>) -> Seq<char> {
    let p = "video-playback-by-id."@;
    if topic.len() >= p.len() && topic.subrange(0, p.len() as int) == p {
        topic.subrange(p.len() as int, topic.len() as int)
    } else {
        Seq::<char>::empty()
    }
}

/// Extract the channel id a playback topic names.
pub fn topic_channel(topic: &str) -> (r: String)
    ensures
        r@ == spec_topic_channel(topic@),
{
    proof {
        reveal_strlit("video-playback-by-id.");
    }
    let len = topic.unicode_len();
    if len >= 21 && match_at(topic, "video-playback-by-id.", 0) {
        proof {
            assert(topic@.subrange(0, 21) =~= topic@.subrange(
                0,
                "video-playback-by-id."@.len() as int,
            ));
        }
        topic.substring_char(21, len).to_owned()
    } else {
        proof {
            if topic@.len() >= 21 {
                assert(topic@.subrange(0, "video-playback-by-id."@.len() as int) =~= topic@.subrange(
                    0,
                    21,
                ));
            }
        }
        String::new()
    }
}

// ── Topic batching ──────────────────────────────────────────────────────

/// How many connections a number of topics needs, at most fifty per
/// connection.
pub open spec fn spec_batch_count(n: int) -> int {
    (n + 49) / 50
}

/// Exactly full batches: fifty topics per batch.
proof fn lemma_batch_count_full(k: int)
    requires
        k >= 0,
    ensures
        spec_batch_count(50 * k) == k,
{
    vstd::arithmetic::div_mod::lemma_fundamental_div_mod_converse(50 * k + 49, 50, k, 49);
}

/// A final short batch adds one more connection.
proof fn lemma_batch_count_partial(k: int, take: int)
    requires
        k >= 0,
        0 < take < 50,
    ensures
        spec_batch_count(50 * k + take) == k + 1,
{
    vstd::arithmetic::div_mod::lemma_fundamental_div_mod_converse(
        50 * k + take + 49,
        50,
        k + 1,
        take - 1,
    );
}

/// Partition topics into connection batches of at most fifty, in order.
#[verifier::loop_isolation(false)]
pub fn chunk_topics(topics: &Vec<String>) -> (r: Vec<Vec<String>>)
    ensures
        r@.len() == spec_batch_count(topics@.len() as int),
        forall|b: int|
            0 <= b < r@.len() ==> (#[trigger] r@[b])@.len() <= 50 && r@[b]@.len() > 0,
        forall|b: int, j: int|
            0 <= b < r@.len() && 0 <= j < r@[b]@.len() ==> (#[trigger] r@[b]@[j])@ == topics@[b * 50
                + j]@,
{
    let n = topics.len();
    let mut out: Vec<Vec<String>> = Vec::new();
    let mut i: usize = 0;
    while i < n
        invariant
            i <= n,
            n == topics@.len(),
            (out@.len() * 50 == i) || (i == n && out@.len() == spec_batch_count(n as int)),
            forall|b: int|
                0 <= b < out@.len() ==> (#[trigger] out@[b])@.len() <= 50 && out@[b]@.len() > 0,
            forall|b: int, j: int|
                0 <= b < out@.len() && 0 <= j < out@[b]@.len() ==> (#[trigger] out@[b]@[j])@
                    == topics@[b * 50 + j]@,
        decreases n - i,
    {
        proof {
            assert(out@.len() * 50 == i);
        }
        let take: usize = if n - i < 50 {
            n - i
        } else {
            50
        };
        let mut batch: Vec<String> = Vec::new();
        let mut j: usize = 0;
        while j < take
            invariant
                j <= take,
                take <= n - i,
                i + take <= n,
                batch@.len() == j,
                forall|k: int| 0 <= k < j ==> (#[trigger] batch@[k])@ == topics@[i + k]@,
            decreases take - j,
        {
            batch.push(topics[i + j].clone());
            j += 1;
        }
        let ghost out_prev = out@;
        let ghost len_prev = out@.len() as int;
        out.push(batch);
        proof {
            assert(forall|b: int| 0 <= b < out_prev.len() ==> out@[b] == out_prev[b]);
            assert(out@[len_prev]@.len() == take);
            if n - i < 50 {
                lemma_batch_count_partial(len_prev, take as int);
                assert(out@.len() == spec_batch_count(n as int));
            }
        }
        if n - i < 50 {
            i = n;
        } else {
            i += 50;
        }
    }
    proof {
        if out@.len() * 50 == i && i == n {
            lemma_batch_count_full(out@.len() as int);
        }
        if n == 0 {
            assert(spec_batch_count(0) == 0);
        }
    }
    out
}

/// Fifty topics fill one connection; the fifty-first starts a second; one
/// hundred still need only two.
pub proof fn lemma_batch_boundaries()
    ensures
        spec_batch_count(50) == 1,
        spec_batch_count(51) == 2,
        spec_batch_count(100) == 2,
{
}

// ── Channel map ─────────────────────────────────────────────────────────

/// Index of the first pair with the given key; negative when absent.
pub open spec fn map_find(m: Seq<(String, String)>, k: Seq<char>) -> int
    decreases m.len(),
{
    if m.len() == 0 {
        -1
    } else if m[0].0@ == k {
        0
    } else {
        let r = map_find(m.drop_first(), k);
        if r == -1 {
            -1
        } else {
            r + 1
        }
    }
}

/// The display name a channel map gives an id, the id itself when the map
/// does not know it.
pub open spec fn spec_channel_name(m: Seq<(String, String)>, id: Seq<char>) -> Seq<char> {
    if map_find(m, id) >= 0 {
        m[map_find(m, id)].1@
    } else {
        id
    }
}

/// What `map_find` returns: the first index carrying the key, or a
/// negative value when no pair carries it.
pub proof fn lemma_map_find(m: Seq<(String, String)>, k: Seq<char>)
    ensures
        map_find(m, k) == -1 ==> forall|j: int| 0 <= j < m.len() ==> m[j].0@ != k,
        map_find(m, k) != -1 ==> {
            let i = map_find(m, k);
            0 <= i < m.len() && m[i].0@ == k && forall|j: int| 0 <= j < i ==> m[j].0@ != k
        },
    decreases m.len(),
{
    if m.len() > 0 && m[0].0@ != k {
        lemma_map_find(m.drop_first(), k);
        assert(forall|j: int| 1 <= j < m.len() ==> m[j] == m.drop_first()[j - 1]);
    }
}

/// When the key stands at `i` and nowhere earlier, `map_find` returns `i`.
proof fn lemma_map_find_is(m: Seq<(String, String)>, k: Seq<char>, i: int)
    requires
        0 <= i < m.len(),
        m[i].0@ == k,
        forall|j: int| 0 <= j < i ==> m[j].0@ != k,
    ensures
        map_find(m, k) == i,
    decreases i,
{
    if i > 0 {
        assert(forall|j: int| 1 <= j < m.len() ==> m[j] == m.drop_first()[j - 1]);
        lemma_map_find_is(m.drop_first(), k, i - 1);
    }
}

/// Look up a channel's display name, falling back to its id.
#[verifier::loop_isolation(false)]
pub fn channel_name_for(m: &Vec<(String, String)>, id: &str) -> (r: String)
    ensures
        r@ == spec_channel_name(m@, id@),
{
    let mut i: usize = 0;
    while i < m.len()
        invariant
            i <= m@.len(),
            forall|j: int| 0 <= j < i ==> m@[j].0@ != id@,
        decreases m@.len() - i,
    {
        if str_eq(m[i].0.as_str(), id) {
            proof {
                lemma_map_find_is(m@, id@, i as int);
            }
            return m[i].1.clone();
        }
        i += 1;
    }
    proof {
        lemma_map_find(m@, id@);
        if map_find(m@, id@) >= 0 {
            let k = map_find(m@, id@);
            assert(m@[k].0@ != id@);
        }
    }
    id.to_owned()
}

// ── Frame classification ────────────────────────────────────────────────

/// A frame received on a detector connection, reduced to the fields the
/// engine reads.
#[derive(Debug, Clone)]
pub struct PubSubFrame {
    pub msg_type: String,
    pub topic: Option<String>,
    pub message: Option<String>,
}

/// What the engine does with an incoming frame.
#[derive(Debug)]
pub enum PubSubAction {
    /// Keep-alives, listen responses, reconnect hints, and anything
    /// unreadable: observed but not acted on.
    Ignore,
    /// A channel went live: publish the stream-up event and hand the
    /// identity to the trigger pipeline.
    StreamUp { channel_id: String, channel_name: String },
    /// A channel went offline: publish the stream-down event.
    StreamDown { channel_id: String, channel_name: String },
}

/// The action a message frame's fields call for: only a `MESSAGE` frame
/// whose inner playback type is a stream-up or stream-down acts, with the
/// channel identity taken from the topic and the channel map.
pub open spec fn spec_playback_action(
    msg_type: Seq<char>,
    topic: Seq<char>,
    inner_type: Option<Seq<char>>,
    m: Seq<(String, String)>,
) -> PubSubActionSpec {
    if msg_type != "MESSAGE"@ {
        PubSubActionSpec::Ignore
    } else {
        let cid = spec_topic_channel(topic);
        let name = spec_channel_name(m, cid);
        match inner_type {
            None => PubSubActionSpec::Ignore,
            Some(t) => {
                if t == "stream-up"@ {
                    PubSubActionSpec::StreamUp { channel_id: cid, channel_name: name }
                } else if t == "stream-down"@ {
                    PubSubActionSpec::StreamDown { channel_id: cid, channel_name: name }
                } else {
                    PubSubActionSpec::Ignore
                }
            },
        }
    }
}

/// The ghost mirror of `PubSubAction`, over character sequences.
pub enum PubSubActionSpec {
    Ignore,
    StreamUp { channel_id: Seq<char>, channel_name: Seq<char> },
    StreamDown { channel_id: Seq<char>, channel_name: Seq<char> },
}

/// The action an executable result corresponds to.
pub open spec fn action_view(a: PubSubAction) -> PubSubActionSpec {
    match a {
        PubSubAction::Ignore => PubSubActionSpec::Ignore,
        PubSubAction::StreamUp { channel_id, channel_name } => PubSubActionSpec::StreamUp {
            channel_id: channel_id@,
            channel_name: channel_name@,
        },
        PubSubAction::StreamDown { channel_id, channel_name } => PubSubActionSpec::StreamDown {
            channel_id: channel_id@,
            channel_name: channel_name@,
        },
    }
}

/// Decide what a message frame's fields call for.
pub fn playback_action(
    msg_type: &str,
    topic: &str,
    inner_type: Option<&String>,
    m: &Vec<(String, String)>,
) -> (r: PubSubAction)
    ensures
        action_view(r) == spec_playback_action(
            msg_type@,
            topic@,
            match inner_type {
                Some(t) => Some(t@),
                None => None,
            },
            m@,
        ),
{
    if !str_eq(msg_type, "MESSAGE") {
        return PubSubAction::Ignore;
    }
    let channel_id = topic_channel(topic);
    let channel_name = channel_name_for(m, channel_id.as_str());
    match inner_type {
        None => PubSubAction::Ignore,
        Some(t) => {
            if str_eq(t.as_str(), "stream-up") {
                PubSubAction::StreamUp { channel_id, channel_name }
            } else if str_eq(t.as_str(), "stream-down") {
                PubSubAction::StreamDown { channel_id, channel_name }
            } else {
                PubSubAction::Ignore
            }
        },
    }
}

/// The action a raw frame text calls for, through the decoded frame and
/// inner playback message.
pub open spec fn spec_pubsub_action(text: Seq<char>, m: Seq<(String, String)>) -> PubSubActionSpec {
    match crate::outside::pubsub_frame_of(text) {
        None => PubSubActionSpec::Ignore,
        Some(parts) => {
            let topic = match parts.1 {
                Some(t) => t,
                None => Seq::<char>::empty(),
            };
            let inner = match parts.2 {
                Some(s) => s,
                None => Seq::<char>::empty(),
            };
            spec_playback_action(parts.0, topic, crate::outside::playback_type_of(inner), m)
        },
    }
}

/// Classify a raw frame received from the detector connection.
pub fn handle_pubsub_message(text: &str, m: &Vec<(String, String)>) -> (r: PubSubAction)
    ensures
        action_view(r) == spec_pubsub_action(text@, m@),
{
    let frame = match crate::outside::parse_pubsub_frame(text) {
        Some(f) => f,
        None => {
            return PubSubAction::Ignore;
        },
    };
    let topic = match frame.topic {
        Some(t) => t,
        None => String::new(),
    };
    let inner = match frame.message {
        Some(s) => s,
        None => String::new(),
    };
    let inner_type = crate::outside::parse_playback_type(inner.as_str());
    playback_action(frame.msg_type.as_str(), topic.as_str(), inner_type.as_ref(), m)
}

// ── Stream identity ─────────────────────────────────────────────────────

/// The stream id a live event synthesises: the platform tag, the channel
/// id, and the timestamp.
pub open spec fn spec_twitch_stream_id(channel_id: Seq<char>, now_rfc: Seq<char>) -> Seq<char> {
    "twitch_"@ + channel_id + "_"@ + now_rfc
}

/// The channel URL the capture runs against: the channel name folded to
/// lower case under the site's host.
pub open spec fn spec_twitch_stream_url(channel_name: Seq<char>) -> Seq<char> {
    "https://www.twitch.tv/"@ + crate::outside::lower_of(channel_name)
}

/// Build the stream id and stream URL for a channel going live.
pub fn twitch_stream_identity(channel_id: &str, channel_name: &str, now_rfc: &str) -> (r: (
    String,
    String,
))
    ensures
        r.0@ == spec_twitch_stream_id(channel_id@, now_rfc@),
        r.1@ == spec_twitch_stream_url(channel_name@),
{
    let mut id = "twitch_".to_owned();
    id.append(channel_id);
    id.append("_");
    id.append(now_rfc);
    let mut url = "https://www.twitch.tv/".to_owned();
    let folded = crate::outside::lowercase(channel_name);
    url.append(folded.as_str());
    proof {
        assert(id@ =~= spec_twitch_stream_id(channel_id@, now_rfc@));
        assert(url@ =~= spec_twitch_stream_url(channel_name@));
    }
    (id, url)
}

// ── Start plan ──────────────────────────────────────────────────────────

/// The enabled presets of one platform, in order.
pub open spec fn spec_enabled_for(
    presets: Seq<DownloadPreset>,
    platform: Seq<char>,
) -> Seq<DownloadPreset>
    decreases presets.len(),
{
    if presets.len() == 0 {
        presets
    } else {
        let rest = spec_enabled_for(presets.drop_first(), platform);
        if presets[0].platform@ == platform && presets[0].enabled {
            seq![presets[0]] + rest
        } else {
            rest
        }
    }
}

/// Keep the enabled presets of one platform, in order.
#[verifier::loop_isolation(false)]
pub fn enabled_presets_for(presets: &Vec<DownloadPreset>, platform: &str) -> (r: Vec<
    DownloadPreset,
>)
    ensures
        r@ == spec_enabled_for(presets@, platform@),
{
    let mut kept: Vec<DownloadPreset> = Vec::new();
    let mut i: usize = 0;
    proof {
        assert(presets@.subrange(0, presets@.len() as int) =~= presets@);
        assert(kept@ + spec_enabled_for(presets@, platform@) =~= spec_enabled_for(
            presets@,
            platform@,
        ));
    }
    while i < presets.len()
        invariant
            i <= presets@.len(),
            kept@ + spec_enabled_for(presets@.subrange(i as int, presets@.len() as int), platform@)
                == spec_enabled_for(presets@, platform@),
        decreases presets@.len() - i,
    {
        let ghost rest = presets@.subrange(i as int, presets@.len() as int);
        proof {
            assert(rest.drop_first() =~= presets@.subrange(i + 1, presets@.len() as int));
            assert(rest[0] == presets@[i as int]);
        }
        if presets[i].enabled && str_eq(presets[i].platform.as_str(), platform) {
            let ghost prev = kept@;
            let p = crate::presets::clone_preset(&presets[i]);
            kept.push(p);
            proof {
                assert(kept@ =~= prev + seq![presets@[i as int]]);
                assert(kept@ + spec_enabled_for(
                    presets@.subrange(i + 1, presets@.len() as int),
                    platform@,
                ) =~= prev + (seq![presets@[i as int]] + spec_enabled_for(
                    presets@.subrange(i + 1, presets@.len() as int),
                    platform@,
                )));
            }
        }
        i += 1;
    }
    proof {
        assert(presets@.subrange(presets@.len() as int, presets@.len() as int)
            =~= Seq::<DownloadPreset>::empty());
        assert(kept@ + Seq::<DownloadPreset>::empty() =~= kept@);
    }
    kept
}

} // verus!

//! Channel presets: the user-configured monitoring entries, one per channel
//! and platform, together with the operations the host performs on the
//! preset list.

use vstd::prelude::*;
use vstd::string::*;

use crate::strutil::str_eq;

verus! {

/// A user-configured monitoring entry for one channel on one platform.
#[derive(Debug, Clone)]
pub struct DownloadPreset {
    pub id: String,
    pub channel_id: String,
    pub channel_name: String,
    /// `"twitch"` or `"youtube"`.
    pub platform: String,
    pub enabled: bool,
    /// `"best"`, `"1080p"`, `"720p"`, `"480p"` or `"360p"`.
    pub quality: String,
    /// `"video+audio"` or `"audio_only"`.
    pub content_type: String,
    pub output_dir: String,
    pub filename_template: String,
    /// `"auto"`, `"mp4"` or `"mkv"`.
    pub container_format: String,
    pub created_at: String,
    pub last_triggered_at: Option<String>,
    pub trigger_count: u32,
}

/// Basic channel identity, as URL resolution reports it.
#[derive(Debug, Clone)]
pub struct ChannelInfo {
    pub channel_id: String,
    pub channel_name: String,
    pub platform: String,
}

/// Index of the first enabled preset for the given platform and channel;
/// negative when there is none.
pub open spec fn first_enabled_match(
    presets: Seq<DownloadPreset>,
    platform: Seq<char>,
    channel_id: Seq<char>,
) -> int
    decreases presets.len(),
{
    if presets.len() == 0 {
        -1
    } else if presets[0].platform@ == platform && presets[0].channel_id@ == channel_id
        && presets[0].enabled {
        0
    } else {
        let r = first_enabled_match(presets.drop_first(), platform, channel_id);
        if r == -1 {
            -1
        } else {
            r + 1
        }
    }
}

/// What `first_enabled_match` returns: the first matching index, or a
/// negative value when no enabled preset matches.
pub proof fn lemma_first_enabled_match(
    presets: Seq<DownloadPreset>,
    platform: Seq<char>,
    channel_id: Seq<char>,
)
    ensures
        first_enabled_match(presets, platform, channel_id) == -1 ==> forall|j: int|
            0 <= j < presets.len() ==> !(presets[j].platform@ == platform
                && presets[j].channel_id@ == channel_id && presets[j].enabled),
        first_enabled_match(presets, platform, channel_id) != -1 ==> {
            let i = first_enabled_match(presets, platform, channel_id);
            0 <= i < presets.len() && presets[i].platform@ == platform && presets[i].channel_id@
                == channel_id && presets[i].enabled
        },
    decreases presets.len(),
{
    if presets.len() > 0 {
        if !(presets[0].platform@ == platform && presets[0].channel_id@ == channel_id
            && presets[0].enabled) {
            lemma_first_enabled_match(presets.drop_first(), platform, channel_id);
            assert(forall|j: int|
                1 <= j < presets.len() ==> presets[j] == presets.drop_first()[j - 1]);
        }
    }
}

/// Find the first enabled preset for the given platform and channel.
#[verifier::loop_isolation(false)]
pub fn find_enabled_preset<'a>(
    presets: &'a Vec<DownloadPreset>,
    platform: &str,
    channel_id: &str,
) -> (r: Option<&'a DownloadPreset>)
    ensures
        match r {
            Some(p) => first_enabled_match(presets@, platform@, channel_id@) >= 0 && *p
                == presets@[first_enabled_match(presets@, platform@, channel_id@)],
            None => first_enabled_match(presets@, platform@, channel_id@) == -1,
        },
{
    let mut i: usize = 0;
    while i < presets.len()
        invariant
            i <= presets@.len(),
            forall|j: int|
                0 <= j < i ==> !(presets@[j].platform@ == platform@ && presets@[j].channel_id@
                    == channel_id@ && presets@[j].enabled),
        decreases presets@.len() - i,
    {
        let p = &presets[i];
        if p.enabled && str_eq(p.platform.as_str(), platform) && str_eq(
            p.channel_id.as_str(),
            channel_id,
        ) {
            proof {
                lemma_first_match_is(presets@, platform@, channel_id@, i as int);
            }
            return Some(p);
        }
        i += 1;
    }
    proof {
        lemma_first_enabled_match(presets@, platform@, channel_id@);
        if first_enabled_match(presets@, platform@, channel_id@) != -1 {
            let k = first_enabled_match(presets@, platform@, channel_id@);
            assert(!(presets@[k].platform@ == platform@ && presets@[k].channel_id@ == channel_id@
                && presets@[k].enabled));
        }
    }
    None
}

/// When an enabled match stands at `i` and nothing earlier matches, the
/// first-match function returns exactly `i`.
proof fn lemma_first_match_is(
    presets: Seq<DownloadPreset>,
    platform: Seq<char>,
    channel_id: Seq<char>,
    i: int,
)
    requires
        0 <= i < presets.len(),
        presets[i].platform@ == platform,
        presets[i].channel_id@ == channel_id,
        presets[i].enabled,
        forall|j: int|
            0 <= j < i ==> !(presets[j].platform@ == platform && presets[j].channel_id@
                == channel_id && presets[j].enabled),
    ensures
        first_enabled_match(presets, platform, channel_id) == i,
    decreases i,
{
    if i > 0 {
        assert(forall|j: int| 1 <= j < presets.len() ==> presets[j] == presets.drop_first()[j - 1]);
        lemma_first_match_is(presets.drop_first(), platform, channel_id, i - 1);
    }
}

/// Index of the first preset with the given id; negative when absent.
pub open spec fn preset_find(presets: Seq<DownloadPreset>, id: Seq<char>) -> int
    decreases presets.len(),
{
    if presets.len() == 0 {
        -1
    } else if presets[0].id@ == id {
        0
    } else {
        let r = preset_find(presets.drop_first(), id);
        if r == -1 {
            -1
        } else {
            r + 1
        }
    }
}

/// What `preset_find` returns: the first index carrying the id, or a
/// negative value when no preset carries it.
pub proof fn lemma_preset_find(presets: Seq<DownloadPreset>, id: Seq<char>)
    ensures
        preset_find(presets, id) == -1 ==> forall|j: int|
            0 <= j < presets.len() ==> presets[j].id@ != id,
        preset_find(presets, id) != -1 ==> {
            let i = preset_find(presets, id);
            0 <= i < presets.len() && presets[i].id@ == id && forall|j: int|
                0 <= j < i ==> presets[j].id@ != id
        },
    decreases presets.len(),
{
    if presets.len() > 0 && presets[0].id@ != id {
        lemma_preset_find(presets.drop_first(), id);
        assert(forall|j: int| 1 <= j < presets.len() ==> presets[j] == presets.drop_first()[j - 1]);
    }
}

/// Find the position of the preset with the given id.
#[verifier::loop_isolation(false)]
pub fn find_preset_index(presets: &Vec<DownloadPreset>, id: &str) -> (r: Option<usize>)
    ensures
        match r {
            Some(i) => preset_find(presets@, id@) == i as int,
            None => preset_find(presets@, id@) == -1,
        },
{
    let mut i: usize = 0;
    while i < presets.len()
        invariant
            i <= presets@.len(),
            forall|j: int| 0 <= j < i ==> presets@[j].id@ != id@,
        decreases presets@.len() - i,
    {
        if str_eq(presets[i].id.as_str(), id) {
            proof {
                lemma_preset_find_is(presets@, id@, i as int);
            }
            return Some(i);
        }
        i += 1;
    }
    proof {
        lemma_preset_find(presets@, id@);
        if preset_find(presets@, id@) != -1 {
            let k = preset_find(presets@, id@);
            assert(presets@[k].id@ != id@);
        }
    }
    None
}

/// When the id stands at `i` and nowhere earlier, `preset_find` returns `i`.
proof fn lemma_preset_find_is(presets: Seq<DownloadPreset>, id: Seq<char>, i: int)
    requires
        0 <= i < presets.len(),
        presets[i].id@ == id,
        forall|j: int| 0 <= j < i ==> presets[j].id@ != id,
    ensures
        preset_find(presets, id) == i,
    decreases i,
{
    if i > 0 {
        assert(forall|j: int| 1 <= j < presets.len() ==> presets[j] == presets.drop_first()[j - 1]);
        lemma_preset_find_is(presets.drop_first(), id, i - 1);
    }
}

/// Replace the preset carrying the same id, or append the preset when no
/// entry carries it.
pub fn upsert_preset(presets: &mut Vec<DownloadPreset>, preset: DownloadPreset)
    ensures
        ({
            let i = preset_find(old(presets)@, preset.id@);
            if i >= 0 {
                final(presets)@ == old(presets)@.update(i, preset)
            } else {
                final(presets)@ == old(presets)@.push(preset)
            }
        }),
{
    match find_preset_index(presets, preset.id.as_str()) {
        Some(i) => {
            proof {
                lemma_preset_find(presets@, preset.id@);
            }
            presets.set(i, preset);
        },
        None => {
            presets.push(preset);
        },
    }
}

/// All presets whose id differs from `id`, in order.
pub open spec fn spec_remove_preset(presets: Seq<DownloadPreset>, id: Seq<char>) -> Seq<
    DownloadPreset,
>
    decreases presets.len(),
{
    if presets.len() == 0 {
        presets
    } else if presets[0].id@ == id {
        spec_remove_preset(presets.drop_first(), id)
    } else {
        seq![presets[0]] + spec_remove_preset(presets.drop_first(), id)
    }
}

/// Remove every preset carrying the given id, keeping the order of the rest.
#[verifier::loop_isolation(false)]
pub fn delete_preset(presets: &mut Vec<DownloadPreset>, id: &str)
    ensures
        final(presets)@ == spec_remove_preset(old(presets)@, id@),
{
    let mut kept: Vec<DownloadPreset> = Vec::new();
    let mut i: usize = 0;
    proof {
        assert(old(presets)@.subrange(0, old(presets)@.len() as int) =~= old(presets)@);
        assert(kept@ + spec_remove_preset(old(presets)@, id@) =~= spec_remove_preset(
            old(presets)@,
            id@,
        ));
    }
    while i < presets.len()
        invariant
            presets@ == old(presets)@,
            i <= presets@.len(),
            kept@ + spec_remove_preset(presets@.subrange(i as int, presets@.len() as int), id@)
                == spec_remove_preset(presets@, id@),
        decreases presets@.len() - i,
    {
        let ghost rest = presets@.subrange(i as int, presets@.len() as int);
        proof {
            assert(rest.drop_first() =~= presets@.subrange(i + 1, presets@.len() as int));
            assert(rest[0] == presets@[i as int]);
        }
        if !str_eq(presets[i].id.as_str(), id) {
            let ghost prev = kept@;
            let p = clone_preset(&presets[i]);
            kept.push(p);
            proof {
                assert(kept@ =~= prev + seq![presets@[i as int]]);
                assert(kept@ + spec_remove_preset(
                    presets@.subrange(i + 1, presets@.len() as int),
                    id@,
                ) =~= prev + (seq![presets@[i as int]] + spec_remove_preset(
                    presets@.subrange(i + 1, presets@.len() as int),
                    id@,
                )));
            }
        }
        i += 1;
    }
    proof {
        assert(presets@.subrange(presets@.len() as int, presets@.len() as int)
            =~= Seq::<DownloadPreset>::empty());
        assert(kept@ + Seq::<DownloadPreset>::empty() =~= kept@);
    }
    *presets = kept;
}

/// An equal copy of a preset, field by field.
pub fn clone_preset(p: &DownloadPreset) -> (r: DownloadPreset)
    ensures
        r == *p,
{
    let last_triggered_at = match &p.last_triggered_at {
        Some(s) => Some(s.clone()),
        None => None,
    };
    let r = DownloadPreset {
        id: p.id.clone(),
        channel_id: p.channel_id.clone(),
        channel_name: p.channel_name.clone(),
        platform: p.platform.clone(),
        enabled: p.enabled,
        quality: p.quality.clone(),
        content_type: p.content_type.clone(),
        output_dir: p.output_dir.clone(),
        filename_template: p.filename_template.clone(),
        container_format: p.container_format.clone(),
        created_at: p.created_at.clone(),
        last_triggered_at,
        trigger_count: p.trigger_count,
    };
    proof {
        assert(r == *p);
    }
    r
}

/// Set the enabled flag of the preset with the given id.
pub fn toggle_preset_enabled(presets: &mut Vec<DownloadPreset>, id: &str, enabled: bool) -> (r:
    Result<(), String>)
    ensures
        ({
            let i = preset_find(old(presets)@, id@);
            if i >= 0 {
                r is Ok && final(presets)@ == old(presets)@.update(
                    i,
                    (DownloadPreset { enabled, ..old(presets)@[i] }),
                )
            } else {
                r matches Err(e) && e@ == "找不到此預設"@ && final(presets)@ == old(presets)@
            }
        }),
{
    match find_preset_index(presets, id) {
        Some(i) => {
            proof {
                lemma_preset_find(presets@, id@);
            }
            let mut p = clone_preset(&presets[i]);
            p.enabled = enabled;
            presets.set(i, p);
            Ok(())
        },
        None => Err("找不到此預設".to_owned()),
    }
}

/// Record a successful trigger on the preset with the given id: stamp the
/// time and count one more trigger, the count held at its maximum rather
/// than wrapping.
pub fn record_preset_trigger(presets: &mut Vec<DownloadPreset>, id: &str, now_rfc: String) -> (r:
    bool)
    ensures
        ({
            let i = preset_find(old(presets)@, id@);
            if i >= 0 {
                r && final(presets)@ == old(presets)@.update(
                    i,
                    (DownloadPreset {
                        last_triggered_at: Some(now_rfc),
                        trigger_count: if old(presets)@[i].trigger_count < u32::MAX {
                            (old(presets)@[i].trigger_count + 1) as u32
                        } else {
                            u32::MAX
                        },
                        ..old(presets)@[i]
                    }),
                )
            } else {
                !r && final(presets)@ == old(presets)@
            }
        }),
{
    match find_preset_index(presets, id) {
        Some(i) => {
            proof {
                lemma_preset_find(presets@, id@);
            }
            let mut p = clone_preset(&presets[i]);
            p.last_triggered_at = Some(now_rfc);
            p.trigger_count = if p.trigger_count < u32::MAX {
                p.trigger_count + 1
            } else {
                u32::MAX
            };
            presets.set(i, p);
            true
        },
        None => false,
    }
}

/// Whether any preset in the list is enabled.
pub fn check_has_enabled_presets(presets: &Vec<DownloadPreset>) -> (r: bool)
    ensures
        r == exists|i: int| 0 <= i < presets@.len() && presets@[i].enabled,
{
    let mut i: usize = 0;
    while i < presets.len()
        invariant
            i <= presets@.len(),
            forall|j: int| 0 <= j < i ==> !presets@[j].enabled,
        decreases presets@.len() - i,
    {
        if presets[i].enabled {
            return true;
        }
        i += 1;
    }
    false
}

} // verus!

//! Filename-template expansion: plain find-and-replace of the placeholders
//! `{channel_name}`, `{date}`, `{datetime}`, `{type}` and `{title}`.

use vstd::prelude::*;
use vstd::string::*;

use crate::strutil::{replace_all, spec_replace};

verus! {

/// The stream-type label a platform expands `{type}` to.
pub open spec fn stream_type_label(platform: Seq<char>) -> Seq<char> {
    if platform == "youtube"@ {
        "YouTube直播"@
    } else if platform == "twitch"@ {
        "Twitch直播"@
    } else {
        "直播"@
    }
}

/// The expanded filename: each placeholder replaced in turn, `{title}`
/// falling back to the channel name marked as a direct stream.
pub open spec fn spec_expand_template(
    template: Seq<char>,
    channel_name: Seq<char>,
    platform: Seq<char>,
    date: Seq<char>,
    datetime: Seq<char>,
) -> Seq<char> {
    spec_replace(
        spec_replace(
            spec_replace(
                spec_replace(
                    spec_replace(template, "{channel_name}"@, channel_name),
                    "{date}"@,
                    date,
                ),
                "{datetime}"@,
                datetime,
            ),
            "{type}"@,
            stream_type_label(platform),
        ),
        "{title}"@,
        channel_name + "_direct_stream"@,
    )
}

/// Expand a filename template with the given stream metadata. The date and
/// datetime renderings are explicit inputs, so the expansion is a pure
/// function of its arguments: identical inputs give identical filenames.
pub fn expand_filename_template(
    template: &str,
    channel_name: &str,
    platform: &str,
    date: &str,
    datetime: &str,
) -> (r: String)
    ensures
        r@ == spec_expand_template(template@, channel_name@, platform@, date@, datetime@),
{
    let type_label: &str = if crate::strutil::str_eq(platform, "youtube") {
        "YouTube直播"
    } else if crate::strutil::str_eq(platform, "twitch") {
        "Twitch直播"
    } else {
        "直播"
    };
    let mut title = channel_name.to_owned();
    title.append("_direct_stream");
    let step1 = replace_all(template, "{channel_name}", channel_name);
    let step2 = replace_all(step1.as_str(), "{date}", date);
    let step3 = replace_all(step2.as_str(), "{datetime}", datetime);
    let step4 = replace_all(step3.as_str(), "{type}", type_label);
    replace_all(step4.as_str(), "{title}", title.as_str())
}

/// Template expansion is deterministic: two expansions of the same
/// template, channel, platform, date and datetime render the same name.
pub proof fn lemma_expand_deterministic(
    template: Seq<char>,
    channel_name: Seq<char>,
    platform: Seq<char>,
    date: Seq<char>,
    datetime: Seq<char>,
    r1: Seq<char>,
    r2: Seq<char>,
)
    requires
        r1 == spec_expand_template(template, channel_name, platform, date, datetime),
        r2 == spec_expand_template(template, channel_name, platform, date, datetime),
    ensures
        r1 == r2,
{
}

} // verus!

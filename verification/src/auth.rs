//! Credential storage as the engine sees it: the token fields, the
//! per-provider key operations, and the cookie-file format check.

use vstd::prelude::*;
use vstd::string::*;

use crate::strutil::{first_idx_from, lemma_first_idx_from, match_at, str_eq};

verus! {

broadcast use vstd::string::group_string_axioms;

/// Stored credentials.
#[derive(Debug, Clone)]
pub struct AuthConfig {
    pub twitch_token: Option<String>,
    pub youtube_cookies_path: Option<String>,
    pub openai_api_key: Option<String>,
    pub groq_api_key: Option<String>,
    pub elevenlabs_api_key: Option<String>,
}

impl AuthConfig {
    /// A configuration with nothing stored.
    pub fn empty() -> (r: Self)
        ensures
            r.twitch_token is None,
            r.youtube_cookies_path is None,
            r.openai_api_key is None,
            r.groq_api_key is None,
            r.elevenlabs_api_key is None,
    {
        AuthConfig {
            twitch_token: None,
            youtube_cookies_path: None,
            openai_api_key: None,
            groq_api_key: None,
            elevenlabs_api_key: None,
        }
    }

    /// Replace the platform credentials, keeping the provider keys.
    pub fn set_tokens(&mut self, twitch_token: Option<String>, youtube_cookies_path: Option<String>)
        ensures
            final(self).twitch_token == twitch_token,
            final(self).youtube_cookies_path == youtube_cookies_path,
            final(self).openai_api_key == old(self).openai_api_key,
            final(self).groq_api_key == old(self).groq_api_key,
            final(self).elevenlabs_api_key == old(self).elevenlabs_api_key,
    {
        self.twitch_token = twitch_token;
        self.youtube_cookies_path = youtube_cookies_path;
    }

    /// Replace the provider keys, keeping the platform credentials.
    pub fn set_api_keys(
        &mut self,
        openai_api_key: Option<String>,
        groq_api_key: Option<String>,
        elevenlabs_api_key: Option<String>,
    )
        ensures
            final(self).twitch_token == old(self).twitch_token,
            final(self).youtube_cookies_path == old(self).youtube_cookies_path,
            final(self).openai_api_key == openai_api_key,
            final(self).groq_api_key == groq_api_key,
            final(self).elevenlabs_api_key == elevenlabs_api_key,
    {
        self.openai_api_key = openai_api_key;
        self.groq_api_key = groq_api_key;
        self.elevenlabs_api_key = elevenlabs_api_key;
    }

    /// Store one provider's key, an empty key clearing it; an unknown
    /// provider changes nothing and reports the error.
    pub fn set_provider_key(&mut self, provider: &str, api_key: String) -> (r: Result<(), String>)
        ensures
            ({
                let value: Option<String> = if api_key@.len() == 0 {
                    None
                } else {
                    Some(api_key)
                };
                &&& (provider@ == "openai"@ ==> r is Ok && final(self).openai_api_key == value
                    && final(self).groq_api_key == old(self).groq_api_key
                    && final(self).elevenlabs_api_key == old(self).elevenlabs_api_key)
                &&& (provider@ == "groq"@ ==> r is Ok && final(self).groq_api_key == value
                    && final(self).openai_api_key == old(self).openai_api_key
                    && final(self).elevenlabs_api_key == old(self).elevenlabs_api_key)
                &&& (provider@ == "elevenlabs"@ ==> r is Ok && final(self).elevenlabs_api_key
                    == value && final(self).openai_api_key == old(self).openai_api_key
                    && final(self).groq_api_key == old(self).groq_api_key)
                &&& (provider@ != "openai"@ && provider@ != "groq"@ && provider@ != "elevenlabs"@
                    ==> (r matches Err(e) && e@ == "Unknown provider: "@ + provider@
                    && *final(self) == *old(self)))
                &&& final(self).twitch_token == old(self).twitch_token
                &&& final(self).youtube_cookies_path == old(self).youtube_cookies_path
            }),
    {
        proof {
            reveal_strlit("openai");
            reveal_strlit("groq");
            reveal_strlit("elevenlabs");
            assert("openai"@.len() == 6);
            assert("groq"@.len() == 4);
            assert("elevenlabs"@.len() == 10);
            assert("openai"@ != "groq"@ && "openai"@ != "elevenlabs"@ && "groq"@
                != "elevenlabs"@);
        }
        let value: Option<String> = if api_key.unicode_len() == 0 {
            None
        } else {
            Some(api_key)
        };
        if str_eq(provider, "openai") {
            self.openai_api_key = value;
            Ok(())
        } else if str_eq(provider, "groq") {
            self.groq_api_key = value;
            Ok(())
        } else if str_eq(provider, "elevenlabs") {
            self.elevenlabs_api_key = value;
            Ok(())
        } else {
            let mut msg = "Unknown provider: ".to_owned();
            msg.append(provider);
            Err(msg)
        }
    }

    /// Read one provider's key; an unknown provider reports the error.
    pub fn provider_key(&self, provider: &str) -> (r: Result<Option<String>, String>)
        ensures
            provider@ == "openai"@ ==> (r matches Ok(k) && k == self.openai_api_key),
            provider@ == "groq"@ ==> (r matches Ok(k) && k == self.groq_api_key),
            provider@ == "elevenlabs"@ ==> (r matches Ok(k) && k == self.elevenlabs_api_key),
            provider@ != "openai"@ && provider@ != "groq"@ && provider@ != "elevenlabs"@ ==> (
            r matches Err(e) && e@ == "Unknown provider: "@ + provider@),
    {
        proof {
            reveal_strlit("openai");
            reveal_strlit("groq");
            reveal_strlit("elevenlabs");
            assert("openai"@.len() == 6);
            assert("groq"@.len() == 4);
            assert("elevenlabs"@.len() == 10);
            assert("openai"@ != "groq"@ && "openai"@ != "elevenlabs"@ && "groq"@
                != "elevenlabs"@);
        }
        if str_eq(provider, "openai") {
            Ok(crate::sched::clone_opt_string(&self.openai_api_key))
        } else if str_eq(provider, "groq") {
            Ok(crate::sched::clone_opt_string(&self.groq_api_key))
        } else if str_eq(provider, "elevenlabs") {
            Ok(crate::sched::clone_opt_string(&self.elevenlabs_api_key))
        } else {
            let mut msg = "Unknown provider: ".to_owned();
            msg.append(provider);
            Err(msg)
        }
    }
}

/// Result of probing a provider with a key.
#[derive(Debug, Clone)]
pub struct ApiKeyTestResult {
    pub success: bool,
    pub message: String,
    pub quota_info: Option<String>,
}

/// The test result an HTTP probe outcome maps to: reachable and accepted,
/// reachable but rejected, or unreachable with the transport's error.
pub fn api_key_test_result(
    reached: bool,
    status_success: bool,
    quota_info: Option<String>,
    transport_error: String,
) -> (r: ApiKeyTestResult)
    ensures
        reached && status_success ==> r.success && r.message@ == "連線成功"@ && r.quota_info
            == quota_info,
        reached && !status_success ==> !r.success && r.message@ == "API Key 無效"@ && r.quota_info
            is None,
        !reached ==> !r.success && r.message@ == "連線失敗: "@ + transport_error@ && r.quota_info
            is None,
{
    if reached {
        if status_success {
            ApiKeyTestResult { success: true, message: "連線成功".to_owned(), quota_info }
        } else {
            ApiKeyTestResult { success: false, message: "API Key 無效".to_owned(), quota_info: None }
        }
    } else {
        let mut msg = "連線失敗: ".to_owned();
        msg.append(transport_error.as_str());
        ApiKeyTestResult { success: false, message: msg, quota_info: None }
    }
}

// ── Cookie-file format ──────────────────────────────────────────────────

/// The line starts a cookie-file header.
pub open spec fn header_line(line: Seq<char>) -> bool {
    (line.len() >= 27 && line.subrange(0, 27) == "# Netscape HTTP Cookie File"@) || (line.len()
        >= 18 && line.subrange(0, 18) == "# HTTP Cookie File"@)
}

/// The line looks like one stored cookie: not a comment, not blank, and at
/// least six tab-separated fields.
pub open spec fn cookie_line(line: Seq<char>) -> bool {
    &&& line.len() > 0
    &&& line[0] != '#'
    &&& crate::strutil::spec_trim(line).len() > 0
    &&& tab_fields(line, 0, 1) >= 6
}

/// The number of tab-separated fields in `line` from `from` on, having
/// seen `acc` so far.
pub open spec fn tab_fields(line: Seq<char>, from: int, acc: int) -> int
    decreases line.len() - from,
        via tab_fields_decreases
{
    if from < 0 || from >= line.len() {
        acc
    } else {
        let t = first_idx_from(line, '\t', from);
        if t < 0 {
            acc
        } else {
            tab_fields(line, t + 1, acc + 1)
        }
    }
}

#[via_fn]
proof fn tab_fields_decreases(line: Seq<char>, from: int, acc: int) {
    if 0 <= from < line.len() {
        lemma_first_idx_from(line, '\t', from);
    }
}

/// Whether a cookie file's content passes the format check: it carries a
/// known header, or at least one line shaped like a stored cookie.
#[verifier::loop_isolation(false)]
pub fn import_youtube_cookies_content(content: &str) -> (r: bool)
    ensures
        r == spec_cookies_ok(content@),
{
    let lines = split_lines(content);
    let mut i: usize = 0;
    let mut has_header = false;
    let mut has_cookie = false;
    while i < lines.len()
        invariant
            i <= lines@.len(),
            has_header == exists|j: int|
                0 <= j < i && header_line((#[trigger] lines@[j])@),
            has_cookie == exists|j: int|
                0 <= j < i && cookie_line((#[trigger] lines@[j])@),
        decreases lines@.len() - i,
    {
        let line = &lines[i];
        if check_header_line(line.as_str()) {
            has_header = true;
        }
        if check_cookie_line(line.as_str()) {
            has_cookie = true;
        }
        i += 1;
    }
    proof {
        let mapped = lines@.map_values(|l: String| l@);
        assert(forall|j: int| 0 <= j < lines@.len() ==> mapped[j] == (#[trigger] lines@[j])@);
        assert(spec_split_lines(content@).len() == lines@.len());
        assert(forall|j: int|
            0 <= j < lines@.len() ==> spec_split_lines(content@)[j] == (#[trigger] lines@[j])@);
    }
    has_header || has_cookie
}

/// The content passes when any of its lines is a header or a cookie.
pub open spec fn spec_cookies_ok(content: Seq<char>) -> bool {
    exists|j: int|
        0 <= j < spec_split_lines(content).len() && (header_line(
            #[trigger] spec_split_lines(content)[j],
        ) || cookie_line(spec_split_lines(content)[j]))
}

/// The lines of a text, separated at newlines; a trailing newline adds no
/// final empty line, as `str::lines` reads it. A carriage return before
/// the newline is kept.
pub open spec fn spec_split_lines(s: Seq<char>) -> Seq<Seq<char>>
    decreases s.len(),
        via spec_split_lines_decreases
{
    if s.len() == 0 {
        Seq::<Seq<char>>::empty()
    } else {
        let n = first_idx_from(s, '\n', 0);
        if n < 0 {
            seq![s]
        } else {
            seq![s.subrange(0, n)] + spec_split_lines(s.subrange(n + 1, s.len() as int))
        }
    }
}

#[via_fn]
proof fn spec_split_lines_decreases(s: Seq<char>) {
    if s.len() > 0 {
        lemma_first_idx_from(s, '\n', 0);
    }
}

/// Split a text into its lines.
#[verifier::loop_isolation(false)]
pub fn split_lines(s: &str) -> (r: Vec<String>)
    ensures
        r@.map_values(|l: String| l@) == spec_split_lines(s@),
    decreases s@.len(),
{
    proof {
        lemma_first_idx_from(s@, '\n', 0);
    }
    let len = s.unicode_len();
    if len == 0 {
        let empty: Vec<String> = Vec::new();
        proof {
            assert(empty@.map_values(|l: String| l@) =~= spec_split_lines(s@));
        }
        return empty;
    }
    match crate::strutil::find_char_from(s, '\n', 0) {
        None => {
            let mut out: Vec<String> = Vec::new();
            out.push(s.to_owned());
            proof {
                assert(out@.map_values(|l: String| l@) =~= seq![s@]);
            }
            out
        },
        Some(n) => {
            let head = s.substring_char(0, n).to_owned();
            let rest = split_lines(s.substring_char(n + 1, len));
            let mut out: Vec<String> = Vec::new();
            out.push(head);
            let mut j: usize = 0;
            while j < rest.len()
                invariant
                    j <= rest@.len(),
                    out@.len() == j + 1,
                    out@[0]@ == s@.subrange(0, n as int),
                    forall|k: int| 1 <= k < j + 1 ==> (#[trigger] out@[k])@ == rest@[k - 1]@,
                decreases rest@.len() - j,
            {
                out.push(rest[j].clone());
                j += 1;
            }
            proof {
                lemma_first_idx_from(s@, '\n', 0);
                let mapped = out@.map_values(|l: String| l@);
                let rhs = seq![s@.subrange(0, n as int)] + rest@.map_values(|l: String| l@);
                assert(mapped.len() == rhs.len());
                assert(forall|k: int| 0 <= k < mapped.len() ==> mapped[k] == (#[trigger] out@[k])@);
                assert(forall|k: int|
                    0 <= k < rest@.len() ==> rest@.map_values(|l: String| l@)[k] == (
                    #[trigger] rest@[k])@);
                assert(mapped =~= rhs);
            }
            out
        },
    }
}

/// Whether a line starts a cookie-file header.
fn check_header_line(line: &str) -> (r: bool)
    ensures
        r == header_line(line@),
{
    proof {
        reveal_strlit("# Netscape HTTP Cookie File");
        reveal_strlit("# HTTP Cookie File");
    }
    let len = line.unicode_len();
    let netscape = len >= 27 && match_at(line, "# Netscape HTTP Cookie File", 0);
    let plain = len >= 18 && match_at(line, "# HTTP Cookie File", 0);
    proof {
        if len >= 27 {
            assert(line@.subrange(0, 27) =~= line@.subrange(
                0,
                "# Netscape HTTP Cookie File"@.len() as int,
            ));
        }
        if len >= 18 {
            assert(line@.subrange(0, 18) =~= line@.subrange(
                0,
                "# HTTP Cookie File"@.len() as int,
            ));
        }
    }
    netscape || plain
}

/// Whether a line looks like one stored cookie.
#[verifier::loop_isolation(false)]
fn check_cookie_line(line: &str) -> (r: bool)
    ensures
        r == cookie_line(line@),
{
    let len = line.unicode_len();
    if len == 0 {
        return false;
    }
    if line.get_char(0) == '#' {
        return false;
    }
    let trimmed = crate::strutil::trim_str(line);
    if trimmed.as_str().unicode_len() == 0 {
        return false;
    }
    let mut fields: usize = 1;
    let mut from: usize = 0;
    while fields < 6
        invariant
            from <= len,
            len == line@.len(),
            1 <= fields <= 6,
            tab_fields(line@, 0, 1) == tab_fields(line@, from as int, fields as int),
        decreases 6 - fields,
    {
        match crate::strutil::find_char_from(line, '\t', from) {
            Some(t) => {
                proof {
                    lemma_first_idx_from(line@, '\t', from as int);
                }
                fields += 1;
                from = t + 1;
            },
            None => {
                proof {
                    lemma_tab_fields_bound(line@, from as int, fields as int);
                }
                return false;
            },
        }
    }
    proof {
        lemma_tab_fields_min(line@, from as int, 6);
    }
    true
}

/// With no tab ahead, the count stays as it is.
proof fn lemma_tab_fields_bound(line: Seq<char>, from: int, acc: int)
    requires
        first_idx_from(line, '\t', from) < 0 || from >= line.len(),
    ensures
        tab_fields(line, from, acc) == acc,
{
}

/// The count never shrinks.
proof fn lemma_tab_fields_min(line: Seq<char>, from: int, acc: int)
    ensures
        tab_fields(line, from, acc) >= acc,
    decreases line.len() - from,
{
    if 0 <= from < line.len() {
        let t = first_idx_from(line, '\t', from);
        if t >= 0 {
            lemma_first_idx_from(line, '\t', from);
            lemma_tab_fields_min(line, t + 1, acc + 1);
        }
    }
}

} // verus!

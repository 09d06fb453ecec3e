//! The recorder supervisor's state machine: the status a recording task can
//! be in, the concurrency count the queue pump consults, exit
//! classification, and the progress-line parsers.

use vstd::prelude::*;
use vstd::string::*;

use crate::strutil::{
    digit_val, find_sub_from, has_sub, is_digit, is_space, occurs_at, spec_digits_value,
    lemma_digits_value_nonneg,
};

verus! {

/// Status of a recording task, as the supervisor publishes it.
#[derive(Clone, Copy, Debug, PartialEq, Eq, Structural)]
pub enum RecStatus {
    Queued,
    Downloading,
    Recording,
    Processing,
    Completed,
    Failed,
    Cancelled,
    Paused,
    StreamInterrupted,
}

/// A task in one of these statuses counts against the concurrency cap.
pub open spec fn is_active(s: RecStatus) -> bool {
    s is Downloading || s is Recording || s is Processing
}

/// How many statuses in the sequence count against the concurrency cap.
pub open spec fn count_active(ss: Seq<RecStatus>) -> int
    decreases ss.len(),
{
    if ss.len() == 0 {
        0
    } else {
        (if is_active(ss[0]) {
            1int
        } else {
            0int
        }) + count_active(ss.drop_first())
    }
}

/// Appending one status raises the active count by one exactly when that
/// status is active.
pub proof fn lemma_count_active_push(ss: Seq<RecStatus>, s: RecStatus)
    ensures
        count_active(ss.push(s)) == count_active(ss) + if is_active(s) {
            1int
        } else {
            0int
        },
    decreases ss.len(),
{
    reveal_with_fuel(count_active, 3);
    if ss.len() == 0 {
        assert(ss.push(s).drop_first() =~= Seq::<RecStatus>::empty());
        assert(ss.push(s)[0] == s);
    } else {
        assert(ss.push(s)[0] == ss[0]);
        assert(ss.push(s).drop_first() =~= ss.drop_first().push(s));
        lemma_count_active_push(ss.drop_first(), s);
    }
}

/// The active count never exceeds the number of statuses.
pub proof fn lemma_count_active_le_len(ss: Seq<RecStatus>)
    ensures
        0 <= count_active(ss) <= ss.len(),
    decreases ss.len(),
{
    if ss.len() > 0 {
        lemma_count_active_le_len(ss.drop_first());
    }
}

/// Count the recording tasks whose status occupies a concurrency slot.
pub fn count_active_statuses(ss: &Vec<RecStatus>) -> (n: usize)
    ensures
        n as int == count_active(ss@),
{
    proof {
        lemma_count_active_le_len(ss@);
        assert(ss@.subrange(0, ss@.len() as int) =~= ss@);
    }
    let mut n: usize = 0;
    let mut i: usize = 0;
    while i < ss.len()
        invariant
            i <= ss@.len(),
            n <= i,
            n as int + count_active(ss@.subrange(i as int, ss@.len() as int)) == count_active(ss@),
        decreases ss@.len() - i,
    {
        let ghost rest = ss@.subrange(i as int, ss@.len() as int);
        proof {
            assert(rest.drop_first() =~= ss@.subrange(i + 1, ss@.len() as int));
            assert(rest[0] == ss@[i as int]);
            lemma_count_active_le_len(ss@.subrange(i + 1, ss@.len() as int));
        }
        match ss[i] {
            RecStatus::Downloading | RecStatus::Recording | RecStatus::Processing => {
                n += 1;
            },
            _ => {},
        }
        i += 1;
    }
    proof {
        assert(ss@.subrange(ss@.len() as int, ss@.len() as int) =~= Seq::<RecStatus>::empty());
    }
    n
}

// ── The recording-task map ──────────────────────────────────────────────

/// One recording task's place in the supervisor's map: its id, its
/// published status, and whether the operator paused it. The child-process
/// handle itself stays with the supervisor's runner.
#[derive(Debug, Clone)]
pub struct RecorderEntry {
    pub id: String,
    pub status: RecStatus,
    pub paused: bool,
}

/// The supervisor's map of recording tasks.
pub struct RecordingTasks {
    pub entries: Vec<RecorderEntry>,
}

/// Index of the first entry with the given id; negative when absent.
pub open spec fn entry_find(entries: Seq<RecorderEntry>, id: Seq<char>) -> int
    decreases entries.len(),
{
    if entries.len() == 0 {
        -1
    } else if entries[0].id@ == id {
        0
    } else {
        let r = entry_find(entries.drop_first(), id);
        if r == -1 {
            -1
        } else {
            r + 1
        }
    }
}

/// When the id stands at `i` and nowhere earlier, `entry_find` returns it.
proof fn lemma_entry_find_is(entries: Seq<RecorderEntry>, id: Seq<char>, i: int)
    requires
        0 <= i < entries.len(),
        entries[i].id@ == id,
        forall|j: int| 0 <= j < i ==> entries[j].id@ != id,
    ensures
        entry_find(entries, id) == i,
    decreases i,
{
    if i > 0 {
        assert(forall|j: int|
            1 <= j < entries.len() ==> entries[j] == entries.drop_first()[j - 1]);
        lemma_entry_find_is(entries.drop_first(), id, i - 1);
    }
}

/// What `entry_find` returns when nothing carries the id.
proof fn lemma_entry_find(entries: Seq<RecorderEntry>, id: Seq<char>)
    ensures
        entry_find(entries, id) == -1 ==> forall|j: int|
            0 <= j < entries.len() ==> entries[j].id@ != id,
        entry_find(entries, id) != -1 ==> 0 <= entry_find(entries, id) < entries.len()
            && entries[entry_find(entries, id)].id@ == id,
    decreases entries.len(),
{
    if entries.len() > 0 && entries[0].id@ != id {
        lemma_entry_find(entries.drop_first(), id);
        assert(forall|j: int|
            1 <= j < entries.len() ==> entries[j] == entries.drop_first()[j - 1]);
    }
}

impl RecordingTasks {
    /// A map with no tasks.
    pub fn new() -> (r: Self)
        ensures
            r.entries@.len() == 0,
    {
        RecordingTasks { entries: Vec::new() }
    }

    /// Register a fresh recording task.
    pub fn insert_task(&mut self, id: String, status: RecStatus)
        ensures
            final(self).entries@ == old(self).entries@.push(
                (RecorderEntry { id: id, status: status, paused: false }),
            ),
    {
        self.entries.push(RecorderEntry { id, status, paused: false });
    }

    /// Find the position of the task with the given id.
    #[verifier::loop_isolation(false)]
    fn position_of(&self, id: &str) -> (r: Option<usize>)
        ensures
            match r {
                Some(i) => entry_find(self.entries@, id@) == i as int,
                None => entry_find(self.entries@, id@) == -1,
            },
    {
        let mut i: usize = 0;
        while i < self.entries.len()
            invariant
                i <= self.entries@.len(),
                forall|j: int| 0 <= j < i ==> self.entries@[j].id@ != id@,
            decreases self.entries@.len() - i,
        {
            if crate::strutil::str_eq(self.entries[i].id.as_str(), id) {
                proof {
                    lemma_entry_find_is(self.entries@, id@, i as int);
                }
                return Some(i);
            }
            i += 1;
        }
        proof {
            lemma_entry_find(self.entries@, id@);
            if entry_find(self.entries@, id@) >= 0 {
                let k = entry_find(self.entries@, id@);
                assert(self.entries@[k].id@ != id@);
            }
        }
        None
    }

    /// Publish a new status for a task; an unknown id changes nothing.
    pub fn set_status(&mut self, id: &str, status: RecStatus) -> (r: bool)
        ensures
            ({
                let i = entry_find(old(self).entries@, id@);
                &&& (i < 0 ==> !r && final(self).entries@ == old(self).entries@)
                &&& (i >= 0 ==> r && final(self).entries@ == old(self).entries@.update(
                    i,
                    (RecorderEntry { status: status, ..old(self).entries@[i] }),
                ))
            }),
    {
        match self.position_of(id) {
            Some(i) => {
                proof {
                    lemma_entry_find(self.entries@, id@);
                }
                let mut e = RecorderEntry {
                    id: self.entries[i].id.clone(),
                    status,
                    paused: self.entries[i].paused,
                };
                self.entries.set(i, e);
                true
            },
            None => false,
        }
    }

    /// Pause a recording: the runner kills the child and remembers the
    /// task, which leaves the concurrency slot. An unknown id reports the
    /// error.
    pub fn pause_download(&mut self, id: &str) -> (r: Result<(), String>)
        ensures
            ({
                let i = entry_find(old(self).entries@, id@);
                &&& (i < 0 ==> (r matches Err(e) && e@ == "找不到下載任務"@ && final(self).entries@
                    == old(self).entries@))
                &&& (i >= 0 ==> r is Ok && final(self).entries@ == old(self).entries@.update(
                    i,
                    (RecorderEntry {
                        status: RecStatus::Paused,
                        paused: true,
                        ..old(self).entries@[i]
                    }),
                ))
            }),
    {
        match self.position_of(id) {
            Some(i) => {
                proof {
                    lemma_entry_find(self.entries@, id@);
                }
                let e = RecorderEntry {
                    id: self.entries[i].id.clone(),
                    status: RecStatus::Paused,
                    paused: true,
                };
                self.entries.set(i, e);
                Ok(())
            },
            None => Err("找不到下載任務".to_owned()),
        }
    }

    /// Resume a paused recording: the runner respawns the capture from the
    /// original configuration, so the task turns back to downloading.
    pub fn resume_download(&mut self, id: &str) -> (r: Result<(), String>)
        ensures
            ({
                let i = entry_find(old(self).entries@, id@);
                &&& (i < 0 ==> (r matches Err(e) && e@ == "找不到下載任務"@ && final(self).entries@
                    == old(self).entries@))
                &&& (i >= 0 ==> r is Ok && final(self).entries@ == old(self).entries@.update(
                    i,
                    (RecorderEntry {
                        status: RecStatus::Downloading,
                        paused: false,
                        ..old(self).entries@[i]
                    }),
                ))
            }),
    {
        match self.position_of(id) {
            Some(i) => {
                proof {
                    lemma_entry_find(self.entries@, id@);
                }
                let e = RecorderEntry {
                    id: self.entries[i].id.clone(),
                    status: RecStatus::Downloading,
                    paused: false,
                };
                self.entries.set(i, e);
                Ok(())
            },
            None => Err("找不到下載任務".to_owned()),
        }
    }

    /// Cancel a recording: the runner kills the child; the task ends as
    /// cancelled. An unknown id reports the error.
    pub fn cancel_download(&mut self, id: &str) -> (r: Result<(), String>)
        ensures
            ({
                let i = entry_find(old(self).entries@, id@);
                &&& (i < 0 ==> (r matches Err(e) && e@ == "找不到下載任務"@ && final(self).entries@
                    == old(self).entries@))
                &&& (i >= 0 ==> r is Ok && final(self).entries@ == old(self).entries@.update(
                    i,
                    (RecorderEntry { status: RecStatus::Cancelled, ..old(self).entries@[i] }),
                ))
            }),
    {
        match self.position_of(id) {
            Some(i) => {
                proof {
                    lemma_entry_find(self.entries@, id@);
                }
                let e = RecorderEntry {
                    id: self.entries[i].id.clone(),
                    status: RecStatus::Cancelled,
                    paused: self.entries[i].paused,
                };
                self.entries.set(i, e);
                Ok(())
            },
            None => Err("找不到下載任務".to_owned()),
        }
    }

    /// Ask a recording to stop gracefully: the runner signals the child so
    /// the container can be finalised, and the task turns to processing
    /// while bytes settle. Unknown ids change nothing, as a stop is
    /// best-effort.
    pub fn stop_recording(&mut self, id: &str) -> (r: bool)
        ensures
            ({
                let i = entry_find(old(self).entries@, id@);
                &&& (i < 0 ==> !r && final(self).entries@ == old(self).entries@)
                &&& (i >= 0 ==> r && final(self).entries@ == old(self).entries@.update(
                    i,
                    (RecorderEntry { status: RecStatus::Processing, ..old(self).entries@[i] }),
                ))
            }),
    {
        match self.position_of(id) {
            Some(i) => {
                proof {
                    lemma_entry_find(self.entries@, id@);
                }
                let e = RecorderEntry {
                    id: self.entries[i].id.clone(),
                    status: RecStatus::Processing,
                    paused: self.entries[i].paused,
                };
                self.entries.set(i, e);
                true
            },
            None => false,
        }
    }

    /// The statuses of every task, in map order, for the queue pump.
    pub fn statuses(&self) -> (r: Vec<RecStatus>)
        ensures
            r@.len() == self.entries@.len(),
            forall|j: int| 0 <= j < r@.len() ==> r@[j] == (#[trigger] self.entries@[j]).status,
    {
        let mut out: Vec<RecStatus> = Vec::new();
        let mut i: usize = 0;
        while i < self.entries.len()
            invariant
                i <= self.entries@.len(),
                out@.len() == i,
                forall|j: int| 0 <= j < i ==> out@[j] == (#[trigger] self.entries@[j]).status,
            decreases self.entries@.len() - i,
        {
            out.push(self.entries[i].status);
            i += 1;
        }
        out
    }
}

// ── Exit classification ─────────────────────────────────────────────────

/// How a recording subprocess ended.
#[derive(Clone, Copy, Debug, PartialEq, Eq, Structural)]
pub enum RecordingExit {
    /// Exit status zero: the capture finished; post-processing follows.
    Completed,
    /// Non-zero exit whose diagnostics show the stream was cut short: the
    /// file written so far is preserved.
    StreamInterrupted,
    /// Non-zero exit for any other reason.
    Failed,
}

/// The diagnostics of a stream cut short, as the capture binary words
/// them.
pub open spec fn spec_interrupted(stderr: Seq<char>) -> bool {
    has_sub(stderr, "Stream ended"@) || has_sub(stderr, "connection"@) || has_sub(
        stderr,
        "interrupt"@,
    )
}

/// Classify the end of a recording subprocess from its exit status and
/// captured diagnostics; unreadable diagnostics count as empty.
pub fn classify_recording_exit(success: bool, stderr: Option<&str>) -> (r: RecordingExit)
    ensures
        success ==> r == RecordingExit::Completed,
        !success ==> ({
            let interrupted = match stderr {
                Some(s) => spec_interrupted(s@),
                None => false,
            };
            r == if interrupted {
                RecordingExit::StreamInterrupted
            } else {
                RecordingExit::Failed
            }
        }),
{
    if success {
        return RecordingExit::Completed;
    }
    let interrupted = match stderr {
        Some(s) => {
            crate::strutil::contains_sub(s, "Stream ended") || crate::strutil::contains_sub(
                s,
                "connection",
            ) || crate::strutil::contains_sub(s, "interrupt")
        },
        None => false,
    };
    if interrupted {
        RecordingExit::StreamInterrupted
    } else {
        RecordingExit::Failed
    }
}

/// The path a finished recording reports: the output path when the file
/// exists, nothing otherwise. Success is never fabricated for a missing
/// file.
pub fn post_process_recording(output_path: &String, file_exists: bool) -> (r: Option<String>)
    ensures
        file_exists ==> r == Some((*output_path)),
        !file_exists ==> r is None,
{
    if file_exists {
        Some(output_path.clone())
    } else {
        None
    }
}

// ── Scanning helpers for progress lines ─────────────────────────────────

/// First position at or after `i` that does not hold whitespace.
pub open spec fn ws_end(s: Seq<char>, i: int) -> int
    decreases s.len() - i,
{
    if 0 <= i < s.len() && is_space(s[i]) {
        ws_end(s, i + 1)
    } else {
        i
    }
}

/// First position at or after `i` that holds neither a digit nor a dot.
pub open spec fn num_end(s: Seq<char>, i: int) -> int
    decreases s.len() - i,
{
    if 0 <= i < s.len() && (is_digit(s[i]) || s[i] == '.') {
        num_end(s, i + 1)
    } else {
        i
    }
}

/// First position at or after `i` that holds whitespace, or the end.
pub open spec fn token_end(s: Seq<char>, i: int) -> int
    decreases s.len() - i,
{
    if 0 <= i < s.len() && !is_space(s[i]) {
        token_end(s, i + 1)
    } else {
        i
    }
}

/// Scanning for the end of a run never moves backwards and never leaves
/// the string.
pub proof fn lemma_scan_bounds(s: Seq<char>, i: int)
    requires
        0 <= i <= s.len(),
    ensures
        i <= ws_end(s, i) <= s.len(),
        i <= num_end(s, i) <= s.len(),
        i <= token_end(s, i) <= s.len(),
    decreases s.len() - i,
{
    if i < s.len() {
        lemma_scan_bounds(s, i + 1);
    }
}

/// Find the end of the whitespace run starting at `from`.
#[verifier::loop_isolation(false)]
fn scan_ws_end(s: &str, from: usize) -> (r: usize)
    requires
        from <= s@.len(),
    ensures
        r as int == ws_end(s@, from as int),
        from <= r <= s@.len(),
{
    let len = s.unicode_len();
    let mut j: usize = from;
    while j < len
        invariant
            from <= j <= len,
            ws_end(s@, from as int) == ws_end(s@, j as int),
        decreases len - j,
    {
        let c = s.get_char(j);
        if !(c == ' ' || c == '\t' || c == '\n' || c == '\r') {
            return j;
        }
        j += 1;
    }
    j
}

/// Find the end of the digits-and-dots run starting at `from`.
#[verifier::loop_isolation(false)]
fn scan_num_end(s: &str, from: usize) -> (r: usize)
    requires
        from <= s@.len(),
    ensures
        r as int == num_end(s@, from as int),
        from <= r <= s@.len(),
{
    let len = s.unicode_len();
    let mut j: usize = from;
    while j < len
        invariant
            from <= j <= len,
            num_end(s@, from as int) == num_end(s@, j as int),
        decreases len - j,
    {
        let c = s.get_char(j);
        if !(('0' <= c && c <= '9') || c == '.') {
            return j;
        }
        j += 1;
    }
    j
}

/// Ten to the power `k`.
pub open spec fn pow10(k: nat) -> int
    decreases k,
{
    if k == 0 {
        1
    } else {
        10 * pow10((k - 1) as nat)
    }
}

/// The integer part, fraction digits and fraction length of a decimal
/// number written with digits and at most one dot. Numbers with more than
/// fifteen integer digits or nine fraction digits are not recognised.
pub open spec fn spec_decimal_parts(s: Seq<char>) -> Option<(int, int, int)> {
    let d = crate::strutil::first_idx_from(s, '.', 0);
    if s.len() == 0 {
        None
    } else if d < 0 {
        if crate::strutil::all_digits(s) && s.len() <= 15 {
            Some((spec_digits_value(s), 0, 0))
        } else {
            None
        }
    } else {
        let ip = s.subrange(0, d);
        let fp = s.subrange(d + 1, s.len() as int);
        if crate::strutil::all_digits(ip) && crate::strutil::all_digits(fp) && ip.len() + fp.len()
            > 0 && ip.len() <= 15 && fp.len() <= 9 {
            Some((spec_digits_value(ip), spec_digits_value(fp), fp.len() as int))
        } else {
            None
        }
    }
}

/// Read a run of at most fifteen digits as a number.
#[verifier::loop_isolation(false)]
fn parse_digits_u64(s: &str, from: usize, to: usize) -> (r: u64)
    requires
        from <= to <= s@.len(),
        to - from <= 15,
        forall|j: int| from <= j < to ==> is_digit(s@[j]),
    ensures
        r as int == spec_digits_value(s@.subrange(from as int, to as int)),
        r < 1000000000000000u64,
{
    let mut acc: u64 = 0;
    let mut i: usize = from;
    proof {
        assert(s@.subrange(from as int, from as int) =~= Seq::<char>::empty());
        lemma_pow10_le(0, 15);
    }
    while i < to
        invariant
            from <= i <= to,
            acc as int == spec_digits_value(s@.subrange(from as int, i as int)),
            (acc as int) < pow10((i - from) as nat),
            pow10((i - from) as nat) <= pow10(15),
        decreases to - i,
    {
        let c = s.get_char(i);
        let d: u64 = (c as u32 as u64) - 48;
        proof {
            assert(is_digit(s@[i as int]));
            assert(d as int == digit_val(s@[i as int]));
            let p = s@.subrange(from as int, i as int);
            let q = s@.subrange(from as int, i + 1);
            assert(q.drop_last() =~= p);
            assert(q.last() == s@[i as int]);
            lemma_pow10_step((i - from) as nat);
            lemma_pow10_le((i + 1 - from) as nat, 15);
            assert(pow10(15) == 1000000000000000) by {
                reveal_with_fuel(pow10, 17);
            };
        }
        acc = acc * 10 + d;
        i += 1;
    }
    proof {
        lemma_pow10_le((to - from) as nat, 15);
        assert(pow10(15) == 1000000000000000) by {
            reveal_with_fuel(pow10, 17);
        };
    }
    acc
}

/// Each extra digit multiplies the bound by ten.
proof fn lemma_pow10_step(k: nat)
    ensures
        pow10(k + 1) == 10 * pow10(k),
        pow10(k) >= 1,
    decreases k,
{
    if k > 0 {
        lemma_pow10_step((k - 1) as nat);
    }
}

/// Powers of ten grow with the exponent.
proof fn lemma_pow10_le(a: nat, b: nat)
    requires
        a <= b,
    ensures
        pow10(a) <= pow10(b),
        pow10(a) >= 1,
    decreases b,
{
    if a < b {
        lemma_pow10_le(a, (b - 1) as nat);
        lemma_pow10_step((b - 1) as nat);
    } else {
        lemma_pow10_step(a);
    }
}

/// Read a decimal number written between `from` and `to`, splitting it
/// into integer part, fraction digits and fraction length.
#[verifier::loop_isolation(false)]
fn parse_decimal_parts(s: &str, from: usize, to: usize) -> (r: Option<(u64, u64, u32)>)
    requires
        from <= to <= s@.len(),
    ensures
        match r {
            Some((ip, fp, k)) => spec_decimal_parts(s@.subrange(from as int, to as int)) == Some(
                (ip as int, fp as int, k as int),
            ) && ip < 1000000000000000u64 && fp < 1000000000u64 && k <= 9,
            None => spec_decimal_parts(s@.subrange(from as int, to as int)) is None,
        },
{
    let ghost sub = s@.subrange(from as int, to as int);
    if from == to {
        return None;
    }
    // Find the dot, check every other character is a digit.
    let mut dot: Option<usize> = None;
    let mut i: usize = from;
    while i < to
        invariant
            from <= i <= to,
            sub == s@.subrange(from as int, to as int),
            match dot {
                Some(d) => from <= d < i && s@[d as int] == '.' && (forall|j: int|
                    from <= j < i && j != d ==> is_digit(s@[j])) && (forall|j: int|
                    from <= j < d ==> s@[j] != '.'),
                None => forall|j: int| from <= j < i ==> is_digit(s@[j]) && s@[j] != '.',
            },
        decreases to - i,
    {
        let c = s.get_char(i);
        if c == '.' {
            match dot {
                Some(dprev) => {
                    proof {
                        let d = dprev as int;
                        assert(sub[d - from] == '.');
                        crate::strutil::lemma_first_idx_from(sub, '.', 0);
                        crate::strutil::lemma_first_idx_is(sub, '.', 0, d - from);
                        let dd = crate::strutil::first_idx_from(sub, '.', 0);
                        let fp = sub.subrange(dd + 1, sub.len() as int);
                        assert(fp[i - from - dd - 1] == s@[i as int]);
                        assert(!is_digit(s@[i as int]));
                        assert(!crate::strutil::all_digits(fp));
                    }
                    return None;
                },
                None => {
                    dot = Some(i);
                },
            }
        } else if c < '0' || c > '9' {
            proof {
                assert(sub[i - from] == s@[i as int]);
                assert(!is_digit(s@[i as int]) && s@[i as int] != '.');
                let dd = crate::strutil::first_idx_from(sub, '.', 0);
                crate::strutil::lemma_first_idx_from(sub, '.', 0);
                if dd >= 0 {
                    let ip = sub.subrange(0, dd);
                    let fp = sub.subrange(dd + 1, sub.len() as int);
                    match dot {
                        Some(d) => {
                            crate::strutil::lemma_first_idx_is(sub, '.', 0, d - from);
                            assert(i - from > dd);
                            assert(fp[i - from - dd - 1] == s@[i as int]);
                            assert(!crate::strutil::all_digits(fp));
                        },
                        None => {
                            assert(dd > i - from);
                            assert(ip[i - from] == s@[i as int]);
                            assert(!crate::strutil::all_digits(ip));
                        },
                    }
                } else {
                    assert(!crate::strutil::all_digits(sub));
                }
            }
            return None;
        }
        i += 1;
    }
    match dot {
        Some(d) => {
            proof {
                assert(sub[d - from] == '.');
                crate::strutil::lemma_first_idx_is(sub, '.', 0, d - from);
            }
            let ilen = d - from;
            let flen = to - d - 1;
            if ilen + flen == 0 || ilen > 15 || flen > 9 {
                proof {
                    let dd = crate::strutil::first_idx_from(sub, '.', 0);
                    assert(sub.subrange(0, dd).len() == ilen);
                    assert(sub.subrange(dd + 1, sub.len() as int).len() == flen);
                }
                return None;
            }
            proof {
                let dd = crate::strutil::first_idx_from(sub, '.', 0);
                let ip = sub.subrange(0, dd);
                let fp = sub.subrange(dd + 1, sub.len() as int);
                assert(ip =~= s@.subrange(from as int, d as int));
                assert(fp =~= s@.subrange(d + 1, to as int));
                assert(crate::strutil::all_digits(ip)) by {
                    assert(forall|j: int| 0 <= j < ip.len() ==> ip[j] == s@[from + j]);
                };
                assert(crate::strutil::all_digits(fp)) by {
                    assert(forall|j: int| 0 <= j < fp.len() ==> fp[j] == s@[d + 1 + j]);
                };
            }
            let ip = parse_digits_u64(s, from, d);
            let fp = parse_digits_u64(s, d + 1, to);
            proof {
                assert(fp as int == spec_digits_value(s@.subrange(d + 1, to as int)));
                assert(s@.subrange(d + 1, to as int).len() <= 9);
                lemma_digits_bound(s@.subrange(d + 1, to as int));
            }
            Some((ip, fp, (flen) as u32))
        },
        None => {
            if to - from > 15 {
                proof {
                    let dd = crate::strutil::first_idx_from(sub, '.', 0);
                    crate::strutil::lemma_first_idx_from(sub, '.', 0);
                    if dd >= 0 {
                        assert(sub[dd] == '.');
                        assert(s@[from + dd] == '.');
                    }
                }
                return None;
            }
            proof {
                let dd = crate::strutil::first_idx_from(sub, '.', 0);
                crate::strutil::lemma_first_idx_from(sub, '.', 0);
                if dd >= 0 {
                    assert(sub[dd] == '.');
                    assert(s@[from + dd] == '.');
                }
                assert(crate::strutil::all_digits(sub)) by {
                    assert(forall|j: int| 0 <= j < sub.len() ==> sub[j] == s@[from + j]);
                };
            }
            let v = parse_digits_u64(s, from, to);
            Some((v, 0, 0))
        },
    }
}

/// A digit string of at most nine digits stays below a billion.
proof fn lemma_digits_bound(s: Seq<char>)
    requires
        crate::strutil::all_digits(s),
        s.len() <= 9,
    ensures
        0 <= spec_digits_value(s) < 1000000000,
    decreases s.len(),
{
    lemma_digits_bound_helper(s, 9);
    assert(pow10(9) == 1000000000) by {
        reveal_with_fuel(pow10, 11);
    };
    lemma_digits_value_nonneg(s);
}

/// A digit string of at most `k` digits stays below ten to the `k`.
proof fn lemma_digits_bound_helper(s: Seq<char>, k: nat)
    requires
        crate::strutil::all_digits(s),
        s.len() <= k,
    ensures
        spec_digits_value(s) < pow10(k),
    decreases s.len(),
{
    lemma_pow10_le(s.len(), k);
    if s.len() == 0 {
        lemma_pow10_step(0);
        lemma_pow10_le(0, k);
    } else {
        assert(crate::strutil::all_digits(s.drop_last()));
        lemma_digits_bound_helper(s.drop_last(), (s.len() - 1) as nat);
        lemma_pow10_step((s.len() - 1) as nat);
        lemma_pow10_le(s.len(), k);
        assert(spec_digits_value(s) == spec_digits_value(s.drop_last()) * 10 + digit_val(s.last()));
    }
}

/// First position at or after `i` that does not hold a digit.
pub open spec fn digit_end(s: Seq<char>, i: int) -> int
    decreases s.len() - i,
{
    if 0 <= i < s.len() && is_digit(s[i]) {
        digit_end(s, i + 1)
    } else {
        i
    }
}

/// Scanning for the end of a digit run never moves backwards and never
/// leaves the string; everything scanned over is a digit.
pub proof fn lemma_digit_end(s: Seq<char>, i: int)
    requires
        0 <= i <= s.len(),
    ensures
        i <= digit_end(s, i) <= s.len(),
        forall|j: int| i <= j < digit_end(s, i) ==> is_digit(s[j]),
    decreases s.len() - i,
{
    if i < s.len() && is_digit(s[i]) {
        lemma_digit_end(s, i + 1);
    }
}

/// Find the end of the digit run starting at `from`.
#[verifier::loop_isolation(false)]
pub fn scan_digit_end(s: &str, from: usize) -> (r: usize)
    requires
        from <= s@.len(),
    ensures
        r as int == digit_end(s@, from as int),
        from <= r <= s@.len(),
{
    let len = s.unicode_len();
    let mut j: usize = from;
    while j < len
        invariant
            from <= j <= len,
            digit_end(s@, from as int) == digit_end(s@, j as int),
        decreases len - j,
    {
        let c = s.get_char(j);
        if !('0' <= c && c <= '9') {
            return j;
        }
        j += 1;
    }
    j
}

/// Find the end of the non-whitespace run starting at `from`.
#[verifier::loop_isolation(false)]
fn scan_token_end(s: &str, from: usize) -> (r: usize)
    requires
        from <= s@.len(),
    ensures
        r as int == token_end(s@, from as int),
        from <= r <= s@.len(),
{
    let len = s.unicode_len();
    let mut j: usize = from;
    while j < len
        invariant
            from <= j <= len,
            token_end(s@, from as int) == token_end(s@, j as int),
        decreases len - j,
    {
        let c = s.get_char(j);
        if c == ' ' || c == '\t' || c == '\n' || c == '\r' {
            return j;
        }
        j += 1;
    }
    j
}


// ── Progress-line parsers ───────────────────────────────────────────────

/// The byte multiplier of a binary size unit.
pub open spec fn spec_mult_of(c: char) -> int {
    if c == 'K' {
        1024
    } else if c == 'M' {
        1048576
    } else {
        1073741824
    }
}

/// What a live-recording progress line reports: anchored at the first
/// progress marker, a size with a binary unit, then `at` and a rate with a
/// binary per-second unit. The result is the size in bytes — held at the
/// unsigned 64-bit maximum if it exceeds it — and the rate text.
pub open spec fn spec_live_progress(line: Seq<char>) -> Option<(int, Seq<char>)> {
    let p0 = crate::strutil::first_sub(line, "[download]"@, 0);
    if p0 < 0 {
        None
    } else {
        let a = p0 + 10;
        let b = ws_end(line, a);
        if b <= a {
            None
        } else {
            let c = num_end(line, b);
            match spec_decimal_parts(line.subrange(b, c)) {
                None => None,
                Some((ip, fp, k)) => {
                    if c + 3 <= line.len() && (line[c] == 'K' || line[c] == 'M' || line[c] == 'G')
                        && line.subrange(c + 1, c + 3) == "iB"@ {
                        let m = spec_mult_of(line[c]);
                        let u = c + 3;
                        let d = ws_end(line, u);
                        if d <= u {
                            None
                        } else if d + 2 <= line.len() && line.subrange(d, d + 2) == "at"@ {
                            let e = ws_end(line, d + 2);
                            if e <= d + 2 {
                                None
                            } else {
                                let f = num_end(line, e);
                                if f <= e {
                                    None
                                } else if f + 5 <= line.len() && (line[f] == 'K' || line[f] == 'M'
                                    || line[f] == 'G') && line.subrange(f + 1, f + 5) == "iB/s"@ {
                                    let bytes = ip * m + fp * m / pow10(k as nat);
                                    let sat = if bytes > u64::MAX {
                                        u64::MAX as int
                                    } else {
                                        bytes
                                    };
                                    Some((sat, line.subrange(e, f + 5)))
                                } else {
                                    None
                                }
                            }
                        } else {
                            None
                        }
                    } else {
                        None
                    }
                },
            }
        }
    }
}

/// Ten to the power `k`, executably.
fn pow10_u64(k: u32) -> (r: u64)
    requires
        k <= 9,
    ensures
        r as int == pow10(k as nat),
{
    let mut r: u64 = 1;
    let mut i: u32 = 0;
    while i < k
        invariant
            i <= k,
            k <= 9,
            r as int == pow10(i as nat),
        decreases k - i,
    {
        proof {
            lemma_pow10_le(i as nat, 8);
            lemma_pow10_step(i as nat);
            assert(pow10(8) == 100000000) by {
                reveal_with_fuel(pow10, 10);
            };
        }
        r = r * 10;
        i += 1;
    }
    r
}

/// Parse a live-recording progress line into the bytes written so far and
/// the rate text.
#[verifier::loop_isolation(false)]
pub fn parse_recording_progress(line: &str) -> (r: Option<(u64, String)>)
    ensures
        match r {
            Some((bytes, bitrate)) => spec_live_progress(line@) == Some(
                (bytes as int, bitrate@),
            ),
            None => spec_live_progress(line@) is None,
        },
{
    let len = line.unicode_len();
    let p0 = match find_marker(line) {
        Some(p) => p,
        None => {
            return None;
        },
    };
    let a = p0 + 10;
    let b = scan_ws_end(line, a);
    if b <= a {
        return None;
    }
    let c = scan_num_end(line, b);
    let parts = match parse_decimal_parts(line, b, c) {
        Some(p) => p,
        None => {
            return None;
        },
    };
    let (ip, fp, k) = parts;
    if len - c < 3 {
        return None;
    }
    let unit_char = line.get_char(c);
    if !(unit_char == 'K' || unit_char == 'M' || unit_char == 'G') {
        return None;
    }
    if !crate::strutil::match_at(line, "iB", c + 1) {
        proof {
            reveal_strlit("iB");
            assert(line@.subrange(c + 1, c + 3) != "iB"@);
        }
        return None;
    }
    proof {
        reveal_strlit("iB");
        assert(line@.subrange(c + 1, c + 3) =~= line@.subrange(c + 1, c + 1 + "iB"@.len() as int));
    }
    let m: u64 = if unit_char == 'K' {
        1024
    } else if unit_char == 'M' {
        1048576
    } else {
        1073741824
    };
    let u = c + 3;
    let d = scan_ws_end(line, u);
    if d <= u {
        return None;
    }
    if len - d < 2 || !crate::strutil::match_at(line, "at", d) {
        proof {
            reveal_strlit("at");
            if d + 2 <= s_len_int(line@) {
                assert(line@.subrange(d as int, d + 2) != "at"@);
            }
        }
        return None;
    }
    proof {
        reveal_strlit("at");
        assert(line@.subrange(d as int, d + 2) =~= line@.subrange(
            d as int,
            d + "at"@.len() as int,
        ));
    }
    let e = scan_ws_end(line, d + 2);
    if e <= d + 2 {
        return None;
    }
    let f = scan_num_end(line, e);
    if f <= e {
        return None;
    }
    if len - f < 5 {
        return None;
    }
    let rate_char = line.get_char(f);
    if !(rate_char == 'K' || rate_char == 'M' || rate_char == 'G') {
        return None;
    }
    if !crate::strutil::match_at(line, "iB/s", f + 1) {
        proof {
            reveal_strlit("iB/s");
            assert(line@.subrange(f + 1, f + 5) != "iB/s"@);
        }
        return None;
    }
    proof {
        reveal_strlit("iB/s");
        assert(line@.subrange(f + 1, f + 5) =~= line@.subrange(
            f + 1,
            f + 1 + "iB/s"@.len() as int,
        ));
    }
    let p10 = pow10_u64(k);
    proof {
        lemma_pow10_le(0, k as nat);
        assert(p10 >= 1);
    }
    let whole: u128 = (ip as u128) * (m as u128);
    let frac: u128 = (fp as u128) * (m as u128) / (p10 as u128);
    let total: u128 = whole + frac;
    let bytes: u64 = if total > 0xFFFF_FFFF_FFFF_FFFFu128 {
        u64::MAX
    } else {
        total as u64
    };
    proof {
        assert(p10 as int >= 1) by {
            lemma_pow10_le(0, k as nat);
        };
        assert((frac as int) == fp as int * m as int / pow10(k as nat));
        assert((total as int) == ip as int * m as int + fp as int * m as int / pow10(k as nat));
    }
    let bitrate = line.substring_char(e, f + 5).to_owned();
    Some((bytes, bitrate))
}

/// Find the first progress marker in the line.
fn find_marker(line: &str) -> (r: Option<usize>)
    ensures
        match r {
            Some(p) => crate::strutil::first_sub(line@, "[download]"@, 0) == p as int && p + 10
                <= line@.len(),
            None => crate::strutil::first_sub(line@, "[download]"@, 0) < 0,
        },
{
    proof {
        reveal_strlit("[download]");
    }
    match crate::strutil::find_sub_from(line, "[download]", 0) {
        Some(p) => {
            proof {
                crate::strutil::lemma_first_sub_is(line@, "[download]"@, 0, p as int);
            }
            Some(p)
        },
        None => {
            proof {
                crate::strutil::lemma_first_sub(line@, "[download]"@, 0);
                if crate::strutil::first_sub(line@, "[download]"@, 0) >= 0 {
                    let i = crate::strutil::first_sub(line@, "[download]"@, 0);
                    assert(!crate::strutil::occurs_at(line@, "[download]"@, i));
                }
            }
            None
        },
    }
}

/// The `at … ETA …` clause of a download progress line matches at `p`:
/// the word `at`, whitespace, a rate token, whitespace, the word `ETA`,
/// whitespace, and at least one further character.
pub open spec fn at_clause_ok(s: Seq<char>, p: int) -> bool {
    &&& 0 <= p
    &&& p + 2 <= s.len()
    &&& s.subrange(p, p + 2) == "at"@
    &&& ({
        let q = ws_end(s, p + 2);
        &&& q > p + 2
        &&& ({
            let t = token_end(s, q);
            &&& t > q
            &&& ({
                let u = ws_end(s, t);
                &&& u > t
                &&& u + 3 <= s.len()
                &&& s.subrange(u, u + 3) == "ETA"@
                &&& ({
                    let v = ws_end(s, u + 3);
                    v > u + 3 && v < s.len()
                })
            })
        })
    })
}

/// Position of the first matching `at … ETA …` clause at or after `i`;
/// negative when none matches.
pub open spec fn find_at_clause(s: Seq<char>, i: int) -> int
    decreases s.len() - i + 1,
{
    if i < 0 || i + 2 > s.len() {
        -1
    } else if at_clause_ok(s, i) {
        i
    } else {
        find_at_clause(s, i + 1)
    }
}

/// The length of a view, as an integer.
pub open spec fn s_len_int(s: Seq<char>) -> int {
    s.len() as int
}

/// Whether the `at … ETA …` clause matches at `p`.
fn check_at_clause(s: &str, p: usize) -> (r: bool)
    requires
        p <= s@.len(),
    ensures
        r == at_clause_ok(s@, p as int),
{
    let len = s.unicode_len();
    if len - p < 2 || !crate::strutil::match_at(s, "at", p) {
        proof {
            reveal_strlit("at");
            if p + 2 <= s_len_int(s@) {
                assert(s@.subrange(p as int, p + 2) != "at"@);
            }
        }
        return false;
    }
    proof {
        reveal_strlit("at");
        assert(s@.subrange(p as int, p + 2) =~= s@.subrange(p as int, p + "at"@.len() as int));
    }
    let q = scan_ws_end(s, p + 2);
    if q <= p + 2 {
        return false;
    }
    let t = scan_token_end(s, q);
    if t <= q {
        return false;
    }
    let u = scan_ws_end(s, t);
    if u <= t {
        return false;
    }
    if len - u < 3 || !crate::strutil::match_at(s, "ETA", u) {
        proof {
            reveal_strlit("ETA");
            if u + 3 <= s_len_int(s@) {
                assert(s@.subrange(u as int, u + 3) != "ETA"@);
            }
        }
        return false;
    }
    proof {
        reveal_strlit("ETA");
        assert(s@.subrange(u as int, u + 3) =~= s@.subrange(u as int, u + "ETA"@.len() as int));
    }
    let v = scan_ws_end(s, u + 3);
    v > u + 3 && v < len
}

/// What a download progress line reports: anchored at the first progress
/// marker, a percentage, then — at the earliest position where the clause
/// fits — `at`, a rate token, `ETA` and the remaining text.
pub open spec fn spec_vod_progress(line: Seq<char>) -> Option<(Seq<char>, Seq<char>, Seq<char>)> {
    let p0 = crate::strutil::first_sub(line, "[download]"@, 0);
    if p0 < 0 {
        None
    } else {
        let a = p0 + 10;
        let b = ws_end(line, a);
        if b <= a {
            None
        } else {
            let c = digit_end(line, b);
            if c <= b {
                None
            } else {
                let pct_end = if c < line.len() && line[c] == '.' {
                    digit_end(line, c + 1)
                } else {
                    c
                };
                if pct_end < line.len() && line[pct_end] == '%' {
                    let w = find_at_clause(line, pct_end + 1);
                    if w < 0 {
                        None
                    } else {
                        let q = ws_end(line, w + 2);
                        let t = token_end(line, q);
                        let u = ws_end(line, t);
                        let v = ws_end(line, u + 3);
                        Some(
                            (
                                line.subrange(b, pct_end),
                                line.subrange(q, t),
                                line.subrange(v, line.len() as int),
                            ),
                        )
                    }
                } else {
                    None
                }
            }
        }
    }
}

/// Find the first matching `at … ETA …` clause at or after `start`.
fn search_at_clause(s: &str, start: usize) -> (r: Option<usize>)
    requires
        start <= s@.len(),
    ensures
        match r {
            Some(p) => find_at_clause(s@, start as int) == p as int && start <= p && p + 2
                <= s@.len() && at_clause_ok(s@, p as int),
            None => find_at_clause(s@, start as int) == -1,
        },
    decreases s@.len() - start,
{
    let len = s.unicode_len();
    if len - start < 2 {
        return None;
    }
    if check_at_clause(s, start) {
        return Some(start);
    }
    search_at_clause(s, start + 1)
}

/// Parse a download progress line into the percentage text, the rate text
/// and the remaining-time text.
#[verifier::loop_isolation(false)]
pub fn parse_ytdlp_progress(line: &str) -> (r: Option<(String, String, String)>)
    ensures
        match r {
            Some((pct, speed, eta)) => spec_vod_progress(line@) == Some((pct@, speed@, eta@)),
            None => spec_vod_progress(line@) is None,
        },
{
    let len = line.unicode_len();
    let p0 = match find_marker(line) {
        Some(p) => p,
        None => {
            return None;
        },
    };
    let a = p0 + 10;
    let b = scan_ws_end(line, a);
    if b <= a {
        return None;
    }
    let c = scan_digit_end(line, b);
    if c <= b {
        return None;
    }
    let pct_end: usize = if c < len && line.get_char(c) == '.' {
        scan_digit_end(line, c + 1)
    } else {
        c
    };
    if !(pct_end < len) || !(line.get_char(pct_end) == '%') {
        return None;
    }
    let w = match search_at_clause(line, pct_end + 1) {
        Some(x) => x,
        None => {
            return None;
        },
    };
    proof {
        assert(find_at_clause(line@, pct_end + 1) == w as int);
        lemma_scan_bounds(line@, w + 2);
    }
    let q = scan_ws_end(line, w + 2);
    let t = scan_token_end(line, q);
    let u = scan_ws_end(line, t);
    let v = scan_ws_end(line, u + 3);
    let pct = line.substring_char(b, pct_end).to_owned();
    let speed = line.substring_char(q, t).to_owned();
    let eta = line.substring_char(v, len).to_owned();
    Some((pct, speed, eta))
}


} // verus!

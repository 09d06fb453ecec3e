//! The trigger pipeline and the capture queue: admission gates applied to a
//! detected live event, the de-duplication ledger with its 24-hour pruning,
//! the per-channel cooldown, the disk preflight, and the bounded FIFO of
//! scheduled capture tasks.

use vstd::prelude::*;
use vstd::string::*;

use crate::presets::{
    find_enabled_preset, first_enabled_match, lemma_first_enabled_match, DownloadPreset,
};
use crate::strutil::str_eq;
use crate::MIN_FREE_BYTES;

verus! {

/// Seconds after which a ledger entry is considered stale and pruned.
pub const LEDGER_RETENTION_SECS: u64 = 86400;

/// Status of a scheduled capture task in the queue.
#[derive(Clone, Copy, Debug, PartialEq, Eq, Structural)]
pub enum TaskStatus {
    Queued,
    Downloading,
    Completed,
    Failed,
    Cancelled,
}

/// Terminal statuses are kept for the session but never leave again.
pub open spec fn is_terminal(s: TaskStatus) -> bool {
    s is Completed || s is Failed || s is Cancelled
}

/// One scheduled capture task: the queue element.
#[derive(Debug, Clone)]
pub struct ScheduledDownloadTask {
    pub id: String,
    pub preset_id: String,
    pub channel_name: String,
    pub platform: String,
    pub stream_id: String,
    pub stream_url: String,
    pub status: TaskStatus,
    /// Trigger time as a timestamp string, for display.
    pub triggered_at: String,
    /// Trigger time in seconds, as the ledger counts it.
    pub triggered_epoch: u64,
    pub started_at: Option<String>,
    pub completed_at: Option<String>,
    pub file_path: Option<String>,
    pub file_size: Option<u64>,
    pub error_message: Option<String>,
    /// Link to the recording task the supervisor runs for this entry.
    pub download_task_id: Option<String>,
}

/// An equal copy of a task, field by field.
pub fn clone_task(t: &ScheduledDownloadTask) -> (r: ScheduledDownloadTask)
    ensures
        r == *t,
{
    let r = ScheduledDownloadTask {
        id: t.id.clone(),
        preset_id: t.preset_id.clone(),
        channel_name: t.channel_name.clone(),
        platform: t.platform.clone(),
        stream_id: t.stream_id.clone(),
        stream_url: t.stream_url.clone(),
        status: t.status,
        triggered_at: t.triggered_at.clone(),
        triggered_epoch: t.triggered_epoch,
        started_at: clone_opt_string(&t.started_at),
        completed_at: clone_opt_string(&t.completed_at),
        file_path: clone_opt_string(&t.file_path),
        file_size: t.file_size,
        error_message: clone_opt_string(&t.error_message),
        download_task_id: clone_opt_string(&t.download_task_id),
    };
    proof {
        assert(r == *t);
    }
    r
}

/// An equal copy of an optional string.
pub fn clone_opt_string(o: &Option<String>) -> (r: Option<String>)
    ensures
        r == *o,
{
    match o {
        Some(s) => Some(s.clone()),
        None => None,
    }
}

// ── The trigger ledger ──────────────────────────────────────────────────

/// An entry is fresh when it is younger than the retention window.
pub open spec fn entry_fresh(now: int, t: int) -> bool {
    now - t < LEDGER_RETENTION_SECS
}

/// The ledger with every stale entry removed, order kept.
pub open spec fn spec_prune_ledger(l: Seq<(String, u64)>, now: int) -> Seq<(String, u64)>
    decreases l.len(),
{
    if l.len() == 0 {
        l
    } else {
        let rest = spec_prune_ledger(l.drop_first(), now);
        if entry_fresh(now, l[0].1 as int) {
            seq![l[0]] + rest
        } else {
            rest
        }
    }
}

/// Index of the first entry with the given key; negative when absent.
pub open spec fn ledger_find(l: Seq<(String, u64)>, k: Seq<char>) -> int
    decreases l.len(),
{
    if l.len() == 0 {
        -1
    } else if l[0].0@ == k {
        0
    } else {
        let r = ledger_find(l.drop_first(), k);
        if r == -1 {
            -1
        } else {
            r + 1
        }
    }
}

/// The ledger holds an entry with the given key.
pub open spec fn ledger_has(l: Seq<(String, u64)>, k: Seq<char>) -> bool {
    ledger_find(l, k) >= 0
}

/// The time stored under the given key.
pub open spec fn ledger_time(l: Seq<(String, u64)>, k: Seq<char>) -> int
    recommends
        ledger_has(l, k),
{
    l[ledger_find(l, k)].1 as int
}

/// No two entries share a key.
pub open spec fn keys_unique(l: Seq<(String, u64)>) -> bool {
    forall|i: int, j: int| 0 <= i < j < l.len() ==> l[i].0@ != l[j].0@
}

/// The ledger without the entries carrying the given key, order kept.
pub open spec fn spec_remove_key(l: Seq<(String, u64)>, k: Seq<char>) -> Seq<(String, u64)>
    decreases l.len(),
{
    if l.len() == 0 {
        l
    } else if l[0].0@ == k {
        spec_remove_key(l.drop_first(), k)
    } else {
        seq![l[0]] + spec_remove_key(l.drop_first(), k)
    }
}

/// The ledger with the given entry stored under its key, replacing any
/// entry that carried it.
pub open spec fn spec_upsert(l: Seq<(String, u64)>, e: (String, u64)) -> Seq<(String, u64)> {
    spec_remove_key(l, e.0@).push(e)
}

/// What `ledger_find` returns: the first index carrying the key, or a
/// negative value when no entry carries it.
pub proof fn lemma_ledger_find(l: Seq<(String, u64)>, k: Seq<char>)
    ensures
        ledger_find(l, k) == -1 ==> forall|j: int| 0 <= j < l.len() ==> l[j].0@ != k,
        ledger_find(l, k) != -1 ==> {
            let i = ledger_find(l, k);
            0 <= i < l.len() && l[i].0@ == k && forall|j: int| 0 <= j < i ==> l[j].0@ != k
        },
    decreases l.len(),
{
    if l.len() > 0 && l[0].0@ != k {
        lemma_ledger_find(l.drop_first(), k);
        assert(forall|j: int| 1 <= j < l.len() ==> l[j] == l.drop_first()[j - 1]);
    }
}

/// When the key stands at `i` and nowhere earlier, `ledger_find` returns `i`.
proof fn lemma_ledger_find_is(l: Seq<(String, u64)>, k: Seq<char>, i: int)
    requires
        0 <= i < l.len(),
        l[i].0@ == k,
        forall|j: int| 0 <= j < i ==> l[j].0@ != k,
    ensures
        ledger_find(l, k) == i,
    decreases i,
{
    if i > 0 {
        assert(forall|j: int| 1 <= j < l.len() ==> l[j] == l.drop_first()[j - 1]);
        lemma_ledger_find_is(l.drop_first(), k, i - 1);
    }
}

/// Pruning keeps exactly the fresh entries.
pub proof fn lemma_prune_contains(l: Seq<(String, u64)>, now: int, e: (String, u64))
    ensures
        spec_prune_ledger(l, now).contains(e) <==> (l.contains(e) && entry_fresh(now, e.1 as int)),
    decreases l.len(),
{
    if l.len() > 0 {
        lemma_prune_contains(l.drop_first(), now, e);
        let rest = spec_prune_ledger(l.drop_first(), now);
        assert(l.contains(e) <==> (e == l[0] || l.drop_first().contains(e))) by {
            if l.contains(e) {
                let i = choose|i: int| 0 <= i < l.len() && l[i] == e;
                if i > 0 {
                    assert(l.drop_first()[i - 1] == e);
                }
            }
            if l.drop_first().contains(e) {
                let i = choose|i: int| 0 <= i < l.drop_first().len() && l.drop_first()[i] == e;
                assert(l[i + 1] == e);
            }
        };
        if entry_fresh(now, l[0].1 as int) {
            let whole = seq![l[0]] + rest;
            assert(whole.contains(e) <==> (e == l[0] || rest.contains(e))) by {
                if whole.contains(e) {
                    let i = choose|i: int| 0 <= i < whole.len() && whole[i] == e;
                    if i > 0 {
                        assert(rest[i - 1] == e);
                    }
                }
                if rest.contains(e) {
                    let i = choose|i: int| 0 <= i < rest.len() && rest[i] == e;
                    assert(whole[i + 1] == e);
                }
                assert(whole[0] == l[0]);
            };
        }
    }
}

/// Removing a key keeps exactly the entries carrying other keys.
pub proof fn lemma_remove_key_contains(l: Seq<(String, u64)>, k: Seq<char>, e: (String, u64))
    ensures
        spec_remove_key(l, k).contains(e) <==> (l.contains(e) && e.0@ != k),
    decreases l.len(),
{
    if l.len() > 0 {
        lemma_remove_key_contains(l.drop_first(), k, e);
        let rest = spec_remove_key(l.drop_first(), k);
        assert(l.contains(e) <==> (e == l[0] || l.drop_first().contains(e))) by {
            if l.contains(e) {
                let i = choose|i: int| 0 <= i < l.len() && l[i] == e;
                if i > 0 {
                    assert(l.drop_first()[i - 1] == e);
                }
            }
            if l.drop_first().contains(e) {
                let i = choose|i: int| 0 <= i < l.drop_first().len() && l.drop_first()[i] == e;
                assert(l[i + 1] == e);
            }
        };
        if l[0].0@ != k {
            let whole = seq![l[0]] + rest;
            assert(whole.contains(e) <==> (e == l[0] || rest.contains(e))) by {
                if whole.contains(e) {
                    let i = choose|i: int| 0 <= i < whole.len() && whole[i] == e;
                    if i > 0 {
                        assert(rest[i - 1] == e);
                    }
                }
                if rest.contains(e) {
                    let i = choose|i: int| 0 <= i < rest.len() && rest[i] == e;
                    assert(whole[i + 1] == e);
                }
                assert(whole[0] == l[0]);
            };
        }
    }
}

/// A ledger whose keys are unique keeps them unique through pruning, and a
/// key found in the pruned ledger carries the time it carried before.
pub proof fn lemma_prune_unique(l: Seq<(String, u64)>, now: int)
    requires
        keys_unique(l),
    ensures
        keys_unique(spec_prune_ledger(l, now)),
        forall|k: Seq<char>| #[trigger]
            ledger_has(spec_prune_ledger(l, now), k) ==> ledger_has(l, k) && ledger_time(
                spec_prune_ledger(l, now),
                k,
            ) == ledger_time(l, k) && entry_fresh(now, ledger_time(l, k)),
        forall|k: Seq<char>| #[trigger]
            ledger_has(l, k) && entry_fresh(now, ledger_time(l, k)) ==> ledger_has(
                spec_prune_ledger(l, now),
                k,
            ),
    decreases l.len(),
{
    let p = spec_prune_ledger(l, now);
    if l.len() == 0 {
    } else {
        let rest = l.drop_first();
        assert(keys_unique(rest)) by {
            assert(forall|j: int| 0 <= j < rest.len() ==> rest[j] == l[j + 1]);
        };
        lemma_prune_unique(rest, now);
        let prest = spec_prune_ledger(rest, now);
        // An entry of the pruned rest comes from the rest.
        assert forall|j: int| 0 <= j < prest.len() implies rest.contains(#[trigger] prest[j]) by {
            assert(prest.contains(prest[j]));
            lemma_prune_contains(rest, now, prest[j]);
        };
        if entry_fresh(now, l[0].1 as int) {
            assert(p =~= seq![l[0]] + prest);
            // Uniqueness: the head key appears nowhere in the pruned rest.
            assert forall|j: int| 0 <= j < prest.len() implies prest[j].0@ != l[0].0@ by {
                lemma_prune_contains(rest, now, prest[j]);
                let m = choose|m: int| 0 <= m < rest.len() && rest[m] == prest[j];
                assert(l[m + 1] == rest[m]);
            };
            assert(keys_unique(p)) by {
                assert(forall|j: int| 1 <= j < p.len() ==> p[j] == prest[j - 1]);
                assert(p[0] == l[0]);
            };
            // Membership and times.
            assert forall|k: Seq<char>| #[trigger] ledger_has(p, k) implies ledger_has(l, k)
                && ledger_time(p, k) == ledger_time(l, k) && entry_fresh(
                now,
                ledger_time(l, k),
            ) by {
                lemma_ledger_find(p, k);
                let i = ledger_find(p, k);
                if i == 0 {
                    assert(p[0] == l[0]);
                    lemma_ledger_find_is(l, k, 0);
                } else {
                    assert(p[i] == prest[i - 1]);
                    assert(ledger_has(prest, k)) by {
                        lemma_ledger_find_is(prest, k, i - 1);
                    };
                    assert(ledger_has(rest, k) && ledger_time(prest, k) == ledger_time(rest, k)
                        && entry_fresh(now, ledger_time(rest, k)));
                    lemma_ledger_find(rest, k);
                    let m = ledger_find(rest, k);
                    assert(l[m + 1] == rest[m]);
                    assert(forall|j: int| 0 <= j < m + 1 ==> l[j].0@ != k) by {
                        assert(forall|j: int| 1 <= j < m + 1 ==> l[j] == rest[j - 1]);
                        assert(l[0].0@ != k) by {
                            assert(p[0].0@ != k) by {
                                lemma_ledger_find(p, k);
                            };
                        };
                    };
                    lemma_ledger_find_is(l, k, m + 1);
                    assert(ledger_time(prest, k) == prest[ledger_find(prest, k)].1 as int);
                    assert(ledger_time(p, k) == p[i].1 as int);
                    assert(ledger_find(prest, k) == i - 1) by {
                        lemma_ledger_find(prest, k);
                        assert(forall|j: int| 0 <= j < i - 1 ==> prest[j] == p[j + 1]);
                        assert(forall|j: int| 0 <= j < i - 1 ==> prest[j].0@ != k) by {
                            lemma_ledger_find(p, k);
                        };
                        lemma_ledger_find_is(prest, k, i - 1);
                    };
                }
            };
            assert forall|k: Seq<char>| #[trigger]
                ledger_has(l, k) && entry_fresh(now, ledger_time(l, k)) implies ledger_has(
                p,
                k,
            ) by {
                lemma_ledger_find(l, k);
                let i = ledger_find(l, k);
                if i == 0 {
                    lemma_ledger_find_is(p, k, 0);
                } else {
                    assert(rest[i - 1] == l[i]);
                    assert(ledger_has(rest, k)) by {
                        assert(forall|j: int| 0 <= j < i - 1 ==> rest[j] == l[j + 1]);
                        lemma_ledger_find_is(rest, k, i - 1);
                    };
                    assert(ledger_time(rest, k) == ledger_time(l, k)) by {
                        lemma_ledger_find_is(rest, k, i - 1);
                    };
                    assert(ledger_has(prest, k));
                    lemma_ledger_find(prest, k);
                    let m = ledger_find(prest, k);
                    assert(p[m + 1] == prest[m]);
                    lemma_ledger_find_is(p, k, m + 1);
                }
            };
        } else {
            assert(p =~= prest);
            // The stale head key cannot reappear fresh: keys are unique, so
            // the head key is absent from the rest.
            assert forall|k: Seq<char>| #[trigger]
                ledger_has(l, k) && entry_fresh(now, ledger_time(l, k)) implies ledger_has(
                p,
                k,
            ) by {
                lemma_ledger_find(l, k);
                let i = ledger_find(l, k);
                if i == 0 {
                    assert(ledger_time(l, k) == l[0].1 as int);
                    assert(false);
                } else {
                    assert(rest[i - 1] == l[i]);
                    assert(forall|j: int| 0 <= j < i - 1 ==> rest[j] == l[j + 1]);
                    lemma_ledger_find_is(rest, k, i - 1);
                    assert(ledger_has(rest, k) && ledger_time(rest, k) == ledger_time(l, k));
                }
            };
            assert forall|k: Seq<char>| #[trigger] ledger_has(p, k) implies ledger_has(l, k)
                && ledger_time(p, k) == ledger_time(l, k) && entry_fresh(
                now,
                ledger_time(l, k),
            ) by {
                assert(ledger_has(rest, k) && ledger_time(p, k) == ledger_time(rest, k)
                    && entry_fresh(now, ledger_time(rest, k)));
                lemma_ledger_find(rest, k);
                let m = ledger_find(rest, k);
                assert(l[m + 1] == rest[m]);
                assert(l[0].0@ != k) by {
                    if l[0].0@ == k {
                        assert(l[0].0@ == l[m + 1].0@);
                    }
                };
                assert(forall|j: int| 0 <= j < m + 1 ==> l[j].0@ != k) by {
                    assert(forall|j: int| 1 <= j < m + 1 ==> l[j] == rest[j - 1]);
                };
                lemma_ledger_find_is(l, k, m + 1);
            };
        }
    }
}

/// Storing an entry keeps keys unique, stores its time under its key, and
/// leaves every other key's presence and time unchanged.
pub proof fn lemma_upsert_props(l: Seq<(String, u64)>, e: (String, u64))
    requires
        keys_unique(l),
    ensures
        keys_unique(spec_upsert(l, e)),
        ledger_has(spec_upsert(l, e), e.0@),
        ledger_time(spec_upsert(l, e), e.0@) == e.1 as int,
        forall|k: Seq<char>|
            k != e.0@ ==> (#[trigger] ledger_has(spec_upsert(l, e), k) <==> ledger_has(l, k)),
        forall|k: Seq<char>|
            k != e.0@ && ledger_has(l, k) ==> #[trigger] ledger_time(spec_upsert(l, e), k)
                == ledger_time(l, k),
    decreases l.len(),
{
    let up = spec_upsert(l, e);
    lemma_remove_key_unique(l, e.0@);
    let r = spec_remove_key(l, e.0@);
    // Keys unique after push: the pushed key is absent from the removal.
    assert forall|j: int| 0 <= j < r.len() implies r[j].0@ != e.0@ by {
        assert(r.contains(r[j]));
        lemma_remove_key_contains(l, e.0@, r[j]);
    };
    assert(keys_unique(up)) by {
        assert(forall|j: int| 0 <= j < r.len() ==> up[j] == r[j]);
        assert(up[up.len() - 1] == e);
    };
    assert(ledger_has(up, e.0@) && ledger_time(up, e.0@) == e.1 as int) by {
        assert(forall|j: int| 0 <= j < r.len() ==> up[j] == r[j]);
        assert(up[up.len() - 1] == e);
        lemma_ledger_find_is(up, e.0@, up.len() - 1);
    };
    assert forall|k: Seq<char>| k != e.0@ implies (#[trigger] ledger_has(up, k) <==> ledger_has(
        l,
        k,
    )) by {
        lemma_upsert_other_key(l, e, k);
    };
    assert forall|k: Seq<char>|
        k != e.0@ && ledger_has(l, k) implies #[trigger] ledger_time(up, k) == ledger_time(
        l,
        k,
    ) by {
        lemma_upsert_other_key(l, e, k);
    };
}

/// Storing an entry leaves every other key's presence and time unchanged.
proof fn lemma_upsert_other_key(l: Seq<(String, u64)>, e: (String, u64), k: Seq<char>)
    requires
        keys_unique(l),
        k != e.0@,
    ensures
        ledger_has(spec_upsert(l, e), k) <==> ledger_has(l, k),
        ledger_has(l, k) ==> ledger_time(spec_upsert(l, e), k) == ledger_time(l, k),
{
    let up = spec_upsert(l, e);
    let r = spec_remove_key(l, e.0@);
    lemma_remove_key_find(l, e.0@, k);
    if ledger_has(r, k) {
        lemma_ledger_find(r, k);
        let i = ledger_find(r, k);
        assert(up[i] == r[i]);
        assert(forall|j: int| 0 <= j < i ==> up[j] == r[j]);
        lemma_ledger_find_is(up, k, i);
    } else {
        lemma_ledger_find(r, k);
        if ledger_has(up, k) {
            lemma_ledger_find(up, k);
            let i = ledger_find(up, k);
            if i < r.len() {
                assert(up[i] == r[i]);
            } else {
                assert(up[i] == e);
            }
            assert(false);
        }
    }
}

/// Removing a key keeps the other keys' entries, in order, with their times.
pub proof fn lemma_remove_key_find(l: Seq<(String, u64)>, k: Seq<char>, k2: Seq<char>)
    requires
        keys_unique(l),
        k2 != k,
    ensures
        ledger_has(spec_remove_key(l, k), k2) <==> ledger_has(l, k2),
        ledger_has(l, k2) ==> ledger_time(spec_remove_key(l, k), k2) == ledger_time(l, k2),
    decreases l.len(),
{
    if l.len() > 0 {
        let rest = l.drop_first();
        assert(keys_unique(rest)) by {
            assert(forall|j: int| 0 <= j < rest.len() ==> rest[j] == l[j + 1]);
        };
        lemma_remove_key_find(rest, k, k2);
        let rrest = spec_remove_key(rest, k);
        if l[0].0@ == k {
            assert(spec_remove_key(l, k) == rrest);
            assert(ledger_has(l, k2) <==> ledger_has(rest, k2)) by {
                lemma_ledger_find(l, k2);
                lemma_ledger_find(rest, k2);
                if ledger_has(l, k2) {
                    let i = ledger_find(l, k2);
                    assert(i > 0);
                    assert(rest[i - 1] == l[i]);
                    assert(forall|j: int| 0 <= j < i - 1 ==> rest[j] == l[j + 1]);
                    lemma_ledger_find_is(rest, k2, i - 1);
                }
                if ledger_has(rest, k2) {
                    let i = ledger_find(rest, k2);
                    assert(l[i + 1] == rest[i]);
                    assert(forall|j: int| 1 <= j < i + 1 ==> l[j] == rest[j - 1]);
                    lemma_ledger_find_is(l, k2, i + 1);
                }
            };
            if ledger_has(l, k2) {
                let i = ledger_find(l, k2);
                lemma_ledger_find(l, k2);
                assert(rest[i - 1] == l[i]);
                assert(forall|j: int| 0 <= j < i - 1 ==> rest[j] == l[j + 1]);
                lemma_ledger_find_is(rest, k2, i - 1);
            }
        } else {
            assert(spec_remove_key(l, k) == seq![l[0]] + rrest);
            let whole = seq![l[0]] + rrest;
            lemma_ledger_find(l, k2);
            lemma_ledger_find(rest, k2);
            lemma_ledger_find(rrest, k2);
            lemma_ledger_find(whole, k2);
            if l[0].0@ == k2 {
                lemma_ledger_find_is(l, k2, 0);
                assert(whole[0] == l[0]);
                lemma_ledger_find_is(whole, k2, 0);
            } else {
                assert(ledger_has(l, k2) <==> ledger_has(rest, k2)) by {
                    if ledger_has(l, k2) {
                        let i = ledger_find(l, k2);
                        assert(i > 0);
                        assert(rest[i - 1] == l[i]);
                        assert(forall|j: int| 0 <= j < i - 1 ==> rest[j] == l[j + 1]);
                        lemma_ledger_find_is(rest, k2, i - 1);
                    }
                    if ledger_has(rest, k2) {
                        let i = ledger_find(rest, k2);
                        assert(l[i + 1] == rest[i]);
                        assert(forall|j: int| 1 <= j < i + 1 ==> l[j] == rest[j - 1]);
                        lemma_ledger_find_is(l, k2, i + 1);
                    }
                };
                assert(ledger_has(whole, k2) <==> ledger_has(rrest, k2)) by {
                    if ledger_has(whole, k2) {
                        let i = ledger_find(whole, k2);
                        assert(i > 0);
                        assert(rrest[i - 1] == whole[i]);
                        assert(forall|j: int| 0 <= j < i - 1 ==> rrest[j] == whole[j + 1]);
                        lemma_ledger_find_is(rrest, k2, i - 1);
                    }
                    if ledger_has(rrest, k2) {
                        let i = ledger_find(rrest, k2);
                        assert(whole[i + 1] == rrest[i]);
                        assert(forall|j: int| 1 <= j < i + 1 ==> whole[j] == rrest[j - 1]);
                        lemma_ledger_find_is(whole, k2, i + 1);
                    }
                };
                if ledger_has(l, k2) {
                    let i = ledger_find(l, k2);
                    assert(rest[i - 1] == l[i]);
                    assert(forall|j: int| 0 <= j < i - 1 ==> rest[j] == l[j + 1]);
                    lemma_ledger_find_is(rest, k2, i - 1);
                    let m = ledger_find(rrest, k2);
                    assert(whole[m + 1] == rrest[m]);
                    assert(forall|j: int| 1 <= j < m + 1 ==> whole[j] == rrest[j - 1]);
                    lemma_ledger_find_is(whole, k2, m + 1);
                }
            }
        }
    }
}

/// Removing a key preserves the uniqueness of the rest.
pub proof fn lemma_remove_key_unique(l: Seq<(String, u64)>, k: Seq<char>)
    requires
        keys_unique(l),
    ensures
        keys_unique(spec_remove_key(l, k)),
    decreases l.len(),
{
    if l.len() > 0 {
        let rest = l.drop_first();
        assert(keys_unique(rest)) by {
            assert(forall|j: int| 0 <= j < rest.len() ==> rest[j] == l[j + 1]);
        };
        lemma_remove_key_unique(rest, k);
        let rrest = spec_remove_key(rest, k);
        if l[0].0@ != k {
            let whole = seq![l[0]] + rrest;
            assert forall|j: int| 0 <= j < rrest.len() implies rrest[j].0@ != l[0].0@ by {
                assert(rrest.contains(rrest[j]));
                lemma_remove_key_contains(rest, k, rrest[j]);
                let m = choose|m: int| 0 <= m < rest.len() && rest[m] == rrest[j];
                assert(l[m + 1] == rest[m]);
            };
            assert(keys_unique(whole)) by {
                assert(forall|j: int| 1 <= j < whole.len() ==> whole[j] == rrest[j - 1]);
                assert(whole[0] == l[0]);
            };
        }
    }
}

// ── Exec ledger operations ──────────────────────────────────────────────

/// Look up the time stored under a key.
#[verifier::loop_isolation(false)]
fn ledger_lookup(l: &Vec<(String, u64)>, k: &str) -> (r: Option<u64>)
    ensures
        match r {
            Some(v) => ledger_has(l@, k@) && ledger_time(l@, k@) == v as int,
            None => !ledger_has(l@, k@),
        },
{
    let mut i: usize = 0;
    while i < l.len()
        invariant
            i <= l@.len(),
            forall|j: int| 0 <= j < i ==> l@[j].0@ != k@,
        decreases l@.len() - i,
    {
        if str_eq(l[i].0.as_str(), k) {
            proof {
                lemma_ledger_find_is(l@, k@, i as int);
            }
            return Some(l[i].1);
        }
        i += 1;
    }
    proof {
        lemma_ledger_find(l@, k@);
        if ledger_has(l@, k@) {
            let m = ledger_find(l@, k@);
            assert(l@[m].0@ != k@);
        }
    }
    None
}

/// Drop every entry older than the retention window, keeping the order.
#[verifier::loop_isolation(false)]
fn prune_ledger(l: &mut Vec<(String, u64)>, now: u64)
    ensures
        final(l)@ == spec_prune_ledger(old(l)@, now as int),
{
    let mut kept: Vec<(String, u64)> = Vec::new();
    let mut i: usize = 0;
    proof {
        assert(l@.subrange(0, l@.len() as int) =~= l@);
        assert(kept@ + spec_prune_ledger(l@, now as int) =~= spec_prune_ledger(l@, now as int));
    }
    while i < l.len()
        invariant
            l@ == old(l)@,
            i <= l@.len(),
            kept@ + spec_prune_ledger(l@.subrange(i as int, l@.len() as int), now as int)
                == spec_prune_ledger(l@, now as int),
        decreases l@.len() - i,
    {
        let ghost rest = l@.subrange(i as int, l@.len() as int);
        proof {
            assert(rest.drop_first() =~= l@.subrange(i + 1, l@.len() as int));
            assert(rest[0] == l@[i as int]);
        }
        let age_ok = now.saturating_sub(l[i].1) < LEDGER_RETENTION_SECS;
        proof {
            assert(age_ok == entry_fresh(now as int, l@[i as int].1 as int));
        }
        if age_ok {
            let ghost prev = kept@;
            let entry = (l[i].0.clone(), l[i].1);
            kept.push(entry);
            proof {
                assert(entry == l@[i as int]);
                assert(kept@ =~= prev + seq![l@[i as int]]);
                assert(kept@ + spec_prune_ledger(
                    l@.subrange(i + 1, l@.len() as int),
                    now as int,
                ) =~= prev + (seq![l@[i as int]] + spec_prune_ledger(
                    l@.subrange(i + 1, l@.len() as int),
                    now as int,
                )));
            }
        }
        i += 1;
    }
    proof {
        assert(l@.subrange(l@.len() as int, l@.len() as int) =~= Seq::<(String, u64)>::empty());
        assert(kept@ + Seq::<(String, u64)>::empty() =~= kept@);
    }
    *l = kept;
}

/// Store `(k, v)`, replacing any entry under the same key.
#[verifier::loop_isolation(false)]
fn ledger_upsert(l: &mut Vec<(String, u64)>, k: &String, v: u64)
    ensures
        final(l)@ == spec_upsert(old(l)@, ((*k), v)),
{
    let mut kept: Vec<(String, u64)> = Vec::new();
    let mut i: usize = 0;
    proof {
        assert(l@.subrange(0, l@.len() as int) =~= l@);
        assert(kept@ + spec_remove_key(l@, k@) =~= spec_remove_key(l@, k@));
    }
    while i < l.len()
        invariant
            l@ == old(l)@,
            i <= l@.len(),
            kept@ + spec_remove_key(l@.subrange(i as int, l@.len() as int), k@)
                == spec_remove_key(l@, k@),
        decreases l@.len() - i,
    {
        let ghost rest = l@.subrange(i as int, l@.len() as int);
        proof {
            assert(rest.drop_first() =~= l@.subrange(i + 1, l@.len() as int));
            assert(rest[0] == l@[i as int]);
        }
        if !str_eq(l[i].0.as_str(), k.as_str()) {
            let ghost prev = kept@;
            let entry = (l[i].0.clone(), l[i].1);
            kept.push(entry);
            proof {
                assert(entry == l@[i as int]);
                assert(kept@ =~= prev + seq![l@[i as int]]);
                assert(kept@ + spec_remove_key(l@.subrange(i + 1, l@.len() as int), k@) =~= prev
                    + (seq![l@[i as int]] + spec_remove_key(
                    l@.subrange(i + 1, l@.len() as int),
                    k@,
                )));
            }
        }
        i += 1;
    }
    proof {
        assert(l@.subrange(l@.len() as int, l@.len() as int) =~= Seq::<(String, u64)>::empty());
        assert(kept@ + Seq::<(String, u64)>::empty() =~= kept@);
    }
    kept.push((k.clone(), v));
    *l = kept;
}

// ── The scheduled-download state ────────────────────────────────────────

/// The trigger ledger and the queue of scheduled capture tasks.
pub struct ScheduledDownloadState {
    /// Stream id → trigger time: blocks a second trigger for one stream.
    pub triggered_streams: Vec<(String, u64)>,
    /// Channel id → last trigger time: enforces the cooldown.
    pub last_trigger_per_channel: Vec<(String, u64)>,
    /// Every scheduled task of the session, queued and finished alike.
    pub queue: Vec<ScheduledDownloadTask>,
}

/// Why the trigger pipeline dropped a live event.
#[derive(Clone, Copy, Debug, PartialEq, Eq, Structural)]
pub enum DropReason {
    /// Monitoring is paused.
    Paused,
    /// No enabled preset matches the platform and channel.
    NoPreset,
    /// The stream id already triggered once.
    DuplicateStream,
    /// The channel triggered too recently.
    Cooldown,
}

/// What the trigger pipeline decided for a live event.
#[derive(Debug)]
pub enum TriggerOutcome {
    /// Dropped silently; nothing changed but the ledger pruning.
    Dropped(DropReason),
    /// Dropped for lack of disk space; the caller publishes the event and
    /// the critical notification.
    DiskFull { free_bytes: u64, required_bytes: u64 },
    /// One task was queued; the caller publishes the triggered event, the
    /// notification, updates the preset, and pumps the queue.
    Triggered { preset_id: String },
}

/// The task the trigger pipeline appends for an admitted live event.
pub open spec fn spec_queued_task(
    task_id: String,
    preset_id: String,
    channel_name: String,
    platform: String,
    stream_id: String,
    stream_url: String,
    now: u64,
    now_rfc: String,
) -> ScheduledDownloadTask {
    ScheduledDownloadTask {
        id: task_id,
        preset_id: preset_id,
        channel_name: channel_name,
        platform: platform,
        stream_id: stream_id,
        stream_url: stream_url,
        status: TaskStatus::Queued,
        triggered_at: now_rfc,
        triggered_epoch: now,
        started_at: None,
        completed_at: None,
        file_path: None,
        file_size: None,
        error_message: None,
        download_task_id: None,
    }
}

/// The stream id already stands in the ledger.
pub open spec fn dup_blocked(streams: Seq<(String, u64)>, stream_id: Seq<char>) -> bool {
    ledger_has(streams, stream_id)
}

/// The channel's last trigger lies within the cooldown window.
pub open spec fn cooldown_blocked(
    channels: Seq<(String, u64)>,
    channel_id: Seq<char>,
    now: int,
    cooldown: int,
) -> bool {
    ledger_has(channels, channel_id) && now - ledger_time(channels, channel_id) < cooldown
}

/// The measured free space falls short of the required minimum.
pub open spec fn disk_blocked(free_bytes: Option<u64>) -> bool {
    match free_bytes {
        Some(f) => f < MIN_FREE_BYTES,
        None => false,
    }
}

impl ScheduledDownloadState {
    /// A state with empty ledgers and an empty queue.
    pub fn new() -> (r: Self)
        ensures
            r.triggered_streams@.len() == 0,
            r.last_trigger_per_channel@.len() == 0,
            r.queue@.len() == 0,
    {
        ScheduledDownloadState {
            triggered_streams: Vec::new(),
            last_trigger_per_channel: Vec::new(),
            queue: Vec::new(),
        }
    }

    /// Apply the admission gates to a detected live event, in order: the
    /// global pause, the preset match, the ledger de-duplication, the
    /// per-channel cooldown (stale entries pruned first), and the disk
    /// preflight. Only an event that passes every gate enters the ledger
    /// and appends a queued task; `free_bytes` of `None` means the space
    /// could not be measured, which does not block.
    pub fn trigger_scheduled_download(
        &mut self,
        presets: &Vec<DownloadPreset>,
        channel_id: &String,
        channel_name: &String,
        platform: &String,
        stream_id: &String,
        stream_url: &String,
        paused: bool,
        now: u64,
        now_rfc: String,
        cooldown_secs: u64,
        free_bytes: Option<u64>,
        task_id: String,
    ) -> (r: TriggerOutcome)
        ensures
            paused ==> (r matches TriggerOutcome::Dropped(DropReason::Paused) && *final(self)
                == *old(self)),
            !paused && first_enabled_match(presets@, platform@, channel_id@) < 0 ==> (r matches
                TriggerOutcome::Dropped(DropReason::NoPreset) && *final(self) == *old(self)),
            !paused && first_enabled_match(presets@, platform@, channel_id@) >= 0 ==> ({
                let pidx = first_enabled_match(presets@, platform@, channel_id@);
                let s1 = spec_prune_ledger(old(self).triggered_streams@, now as int);
                let c1 = spec_prune_ledger(old(self).last_trigger_per_channel@, now as int);
                let dup = dup_blocked(s1, stream_id@);
                let cool = cooldown_blocked(c1, channel_id@, now as int, cooldown_secs as int);
                let disk = disk_blocked(free_bytes);
                let admitted = !dup && !cool && !disk;
                &&& final(self).triggered_streams@ == if admitted {
                    spec_upsert(s1, ((*stream_id), now))
                } else {
                    s1
                }
                &&& final(self).last_trigger_per_channel@ == if admitted {
                    spec_upsert(c1, ((*channel_id), now))
                } else {
                    c1
                }
                &&& final(self).queue@ == if admitted {
                    old(self).queue@.push(
                        spec_queued_task(
                            task_id,
                            presets@[pidx].id,
                            (*channel_name),
                            (*platform),
                            (*stream_id),
                            (*stream_url),
                            now,
                            now_rfc,
                        ),
                    )
                } else {
                    old(self).queue@
                }
                &&& (dup ==> r matches TriggerOutcome::Dropped(DropReason::DuplicateStream))
                &&& (!dup && cool ==> r matches TriggerOutcome::Dropped(DropReason::Cooldown))
                &&& (!dup && !cool && disk ==> (r matches TriggerOutcome::DiskFull {
                    free_bytes: f,
                    required_bytes: q,
                } && Some(f) == free_bytes && q == MIN_FREE_BYTES))
                &&& (admitted ==> (r matches TriggerOutcome::Triggered { preset_id } && preset_id
                    == presets@[pidx].id))
            }),
    {
        if paused {
            return TriggerOutcome::Dropped(DropReason::Paused);
        }
        let preset_id = match find_enabled_preset(presets, platform.as_str(), channel_id.as_str()) {
            Some(p) => p.id.clone(),
            None => {
                return TriggerOutcome::Dropped(DropReason::NoPreset);
            },
        };
        prune_ledger(&mut self.triggered_streams, now);
        prune_ledger(&mut self.last_trigger_per_channel, now);
        if let Some(_) = ledger_lookup(&self.triggered_streams, stream_id.as_str()) {
            return TriggerOutcome::Dropped(DropReason::DuplicateStream);
        }
        if let Some(t) = ledger_lookup(&self.last_trigger_per_channel, channel_id.as_str()) {
            let blocked = if t > now {
                true
            } else {
                now - t < cooldown_secs
            };
            if blocked {
                return TriggerOutcome::Dropped(DropReason::Cooldown);
            }
        }
        if let Some(f) = free_bytes {
            if f < MIN_FREE_BYTES {
                return TriggerOutcome::DiskFull { free_bytes: f, required_bytes: MIN_FREE_BYTES };
            }
        }
        ledger_upsert(&mut self.triggered_streams, stream_id, now);
        ledger_upsert(&mut self.last_trigger_per_channel, channel_id, now);
        let task = ScheduledDownloadTask {
            id: task_id,
            preset_id: preset_id.clone(),
            channel_name: channel_name.clone(),
            platform: platform.clone(),
            stream_id: stream_id.clone(),
            stream_url: stream_url.clone(),
            status: TaskStatus::Queued,
            triggered_at: now_rfc,
            triggered_epoch: now,
            started_at: None,
            completed_at: None,
            file_path: None,
            file_size: None,
            error_message: None,
            download_task_id: None,
        };
        self.queue.push(task);
        TriggerOutcome::Triggered { preset_id }
    }
}

// ── Queue lookups ───────────────────────────────────────────────────────

/// Index of the first task with the given id; negative when absent.
pub open spec fn task_find(q: Seq<ScheduledDownloadTask>, id: Seq<char>) -> int
    decreases q.len(),
{
    if q.len() == 0 {
        -1
    } else if q[0].id@ == id {
        0
    } else {
        let r = task_find(q.drop_first(), id);
        if r == -1 {
            -1
        } else {
            r + 1
        }
    }
}

/// What `task_find` returns: the first index carrying the id, or a negative
/// value when no task carries it.
pub proof fn lemma_task_find(q: Seq<ScheduledDownloadTask>, id: Seq<char>)
    ensures
        task_find(q, id) == -1 ==> forall|j: int| 0 <= j < q.len() ==> q[j].id@ != id,
        task_find(q, id) != -1 ==> {
            let i = task_find(q, id);
            0 <= i < q.len() && q[i].id@ == id && forall|j: int| 0 <= j < i ==> q[j].id@ != id
        },
    decreases q.len(),
{
    if q.len() > 0 && q[0].id@ != id {
        lemma_task_find(q.drop_first(), id);
        assert(forall|j: int| 1 <= j < q.len() ==> q[j] == q.drop_first()[j - 1]);
    }
}

/// When the id stands at `i` and nowhere earlier, `task_find` returns `i`.
proof fn lemma_task_find_is(q: Seq<ScheduledDownloadTask>, id: Seq<char>, i: int)
    requires
        0 <= i < q.len(),
        q[i].id@ == id,
        forall|j: int| 0 <= j < i ==> q[j].id@ != id,
    ensures
        task_find(q, id) == i,
    decreases i,
{
    if i > 0 {
        assert(forall|j: int| 1 <= j < q.len() ==> q[j] == q.drop_first()[j - 1]);
        lemma_task_find_is(q.drop_first(), id, i - 1);
    }
}

/// Find the position of the task with the given id.
#[verifier::loop_isolation(false)]
fn find_task_index(q: &Vec<ScheduledDownloadTask>, id: &str) -> (r: Option<usize>)
    ensures
        match r {
            Some(i) => task_find(q@, id@) == i as int,
            None => task_find(q@, id@) == -1,
        },
{
    let mut i: usize = 0;
    while i < q.len()
        invariant
            i <= q@.len(),
            forall|j: int| 0 <= j < i ==> q@[j].id@ != id@,
        decreases q@.len() - i,
    {
        if str_eq(q[i].id.as_str(), id) {
            proof {
                lemma_task_find_is(q@, id@, i as int);
            }
            return Some(i);
        }
        i += 1;
    }
    proof {
        lemma_task_find(q@, id@);
        if task_find(q@, id@) >= 0 {
            let m = task_find(q@, id@);
            assert(q@[m].id@ != id@);
        }
    }
    None
}

/// Index of the first task still waiting in the queue; negative when the
/// queue holds none.
pub open spec fn first_queued(q: Seq<ScheduledDownloadTask>) -> int
    decreases q.len(),
{
    if q.len() == 0 {
        -1
    } else if q[0].status is Queued {
        0
    } else {
        let r = first_queued(q.drop_first());
        if r == -1 {
            -1
        } else {
            r + 1
        }
    }
}

/// What `first_queued` returns: the first waiting index, or a negative
/// value when nothing waits.
pub proof fn lemma_first_queued(q: Seq<ScheduledDownloadTask>)
    ensures
        first_queued(q) == -1 ==> forall|j: int| 0 <= j < q.len() ==> !(q[j].status is Queued),
        first_queued(q) != -1 ==> {
            let i = first_queued(q);
            0 <= i < q.len() && q[i].status is Queued && forall|j: int|
                0 <= j < i ==> !(q[j].status is Queued)
        },
    decreases q.len(),
{
    if q.len() > 0 && !(q[0].status is Queued) {
        lemma_first_queued(q.drop_first());
        assert(forall|j: int| 1 <= j < q.len() ==> q[j] == q.drop_first()[j - 1]);
    }
}

/// When a waiting task stands at `i` and nothing earlier waits,
/// `first_queued` returns `i`.
proof fn lemma_first_queued_is(q: Seq<ScheduledDownloadTask>, i: int)
    requires
        0 <= i < q.len(),
        q[i].status is Queued,
        forall|j: int| 0 <= j < i ==> !(q[j].status is Queued),
    ensures
        first_queued(q) == i,
    decreases i,
{
    if i > 0 {
        assert(forall|j: int| 1 <= j < q.len() ==> q[j] == q.drop_first()[j - 1]);
        lemma_first_queued_is(q.drop_first(), i - 1);
    }
}

// ── The queue pump ──────────────────────────────────────────────────────

/// What the queue pump decided. Whatever it decided, the caller publishes
/// one queue-update event.
#[derive(Debug)]
pub enum PumpOutcome {
    /// As many recorder tasks run as the cap allows; nothing was admitted.
    AtCapacity,
    /// No task waits in the queue.
    Idle,
    /// The oldest waiting task was promoted; the caller hands it to the
    /// recorder supervisor.
    Started { task: ScheduledDownloadTask },
}

/// A task as the pump promotes it for admission.
pub open spec fn spec_promote(t: ScheduledDownloadTask, now_rfc: String) -> ScheduledDownloadTask {
    ScheduledDownloadTask { status: TaskStatus::Downloading, started_at: Some(now_rfc), ..t }
}

/// What the pump does to the queue, as a function: nothing at capacity or
/// when no task waits, otherwise the promotion of the oldest waiting task.
pub open spec fn spec_pump_queue(
    q: Seq<ScheduledDownloadTask>,
    active: int,
    max: int,
    now_rfc: String,
) -> Seq<ScheduledDownloadTask> {
    if active >= max || first_queued(q) < 0 {
        q
    } else {
        q.update(first_queued(q), spec_promote(q[first_queued(q)], now_rfc))
    }
}

impl ScheduledDownloadState {
    /// Admit the oldest waiting task when the recorder tasks in an active
    /// status number fewer than the concurrency cap. Idempotent: when
    /// nothing waits or no capacity remains, the state is unchanged.
    #[verifier::loop_isolation(false)]
    pub fn process_scheduled_queue(
        &mut self,
        recorder_statuses: &Vec<crate::recorder::RecStatus>,
        max_concurrent: usize,
        now_rfc: String,
    ) -> (r: PumpOutcome)
        ensures
            final(self).queue@ == spec_pump_queue(
                old(self).queue@,
                crate::recorder::count_active(recorder_statuses@),
                max_concurrent as int,
                now_rfc,
            ),
            final(self).triggered_streams@ == old(self).triggered_streams@,
            final(self).last_trigger_per_channel@ == old(self).last_trigger_per_channel@,
            crate::recorder::count_active(recorder_statuses@) >= max_concurrent ==> (r is AtCapacity
                && *final(self) == *old(self)),
            crate::recorder::count_active(recorder_statuses@) < max_concurrent && first_queued(
                old(self).queue@,
            ) < 0 ==> (r is Idle && *final(self) == *old(self)),
            crate::recorder::count_active(recorder_statuses@) < max_concurrent && first_queued(
                old(self).queue@,
            ) >= 0 ==> ({
                let i = first_queued(old(self).queue@);
                &&& final(self).queue@ == old(self).queue@.update(
                    i,
                    spec_promote(old(self).queue@[i], now_rfc),
                )
                &&& final(self).triggered_streams@ == old(self).triggered_streams@
                &&& final(self).last_trigger_per_channel@ == old(self).last_trigger_per_channel@
                &&& (r matches PumpOutcome::Started { task } && task == spec_promote(
                    old(self).queue@[i],
                    now_rfc,
                ))
            }),
    {
        let active = crate::recorder::count_active_statuses(recorder_statuses);
        if active >= max_concurrent {
            return PumpOutcome::AtCapacity;
        }
        let mut i: usize = 0;
        while i < self.queue.len()
            invariant
                i <= self.queue@.len(),
                forall|j: int| 0 <= j < i ==> !(self.queue@[j].status is Queued),
                *self == *old(self),
            decreases self.queue@.len() - i,
        {
            let waiting = match self.queue[i].status {
                TaskStatus::Queued => true,
                _ => false,
            };
            if waiting {
                proof {
                    lemma_first_queued_is(self.queue@, i as int);
                }
                let mut promoted = clone_task(&self.queue[i]);
                promoted.status = TaskStatus::Downloading;
                promoted.started_at = Some(now_rfc);
                let out = clone_task(&promoted);
                self.queue.set(i, promoted);
                return PumpOutcome::Started { task: out };
            }
            i += 1;
        }
        proof {
            lemma_first_queued(self.queue@);
            if first_queued(self.queue@) >= 0 {
                let m = first_queued(self.queue@);
                assert(!(self.queue@[m].status is Queued));
            }
        }
        PumpOutcome::Idle
    }
}

// ── Terminal transitions ────────────────────────────────────────────────

/// The status a finished recording gives the scheduled task that spawned
/// it: a failed or cancelled recording fails the task; anything else —
/// including a stream cut short with its file preserved — completes it.
pub open spec fn final_task_status(dl: crate::recorder::RecStatus) -> TaskStatus {
    match dl {
        crate::recorder::RecStatus::Failed => TaskStatus::Failed,
        crate::recorder::RecStatus::Cancelled => TaskStatus::Failed,
        _ => TaskStatus::Completed,
    }
}

/// What a terminal recorder transition asks the caller to do.
#[derive(Debug)]
pub struct FinishOutcome {
    /// The queue held the task.
    pub found: bool,
    /// The queue entry changed: the completion or failure event is owed
    /// only then. A task that had already reached a terminal state — an
    /// operator's cancellation, most often — stays as it is.
    pub updated: bool,
    /// The status the finished recording maps to.
    pub new_status: TaskStatus,
    /// Channel name for the completion or failure event; empty when the
    /// task was not found.
    pub channel_name: String,
    /// The error to report, on failure only.
    pub error: Option<String>,
    /// The queue pump must run again after this transition.
    pub pump_required: bool,
}

impl ScheduledDownloadState {
    /// Record the end of a recording on the scheduled task that spawned
    /// it. A task already in a terminal state is left untouched: in
    /// particular a task cancelled while its recording wound down stays
    /// cancelled when the killed child's exit is recorded. The outcome
    /// always demands one more run of the queue pump, so every terminal
    /// transition is followed by an admission attempt.
    pub fn finish_scheduled_task(
        &mut self,
        task_id: &String,
        dl_status: crate::recorder::RecStatus,
        output_path: Option<String>,
        file_size: Option<u64>,
        error_message: Option<String>,
        completed_at: String,
    ) -> (r: FinishOutcome)
        ensures
            r.pump_required,
            r.new_status == final_task_status(dl_status),
            final(self).triggered_streams@ == old(self).triggered_streams@,
            final(self).last_trigger_per_channel@ == old(self).last_trigger_per_channel@,
            ({
                let i = task_find(old(self).queue@, task_id@);
                &&& (i < 0 ==> final(self).queue@ == old(self).queue@ && !r.found && !r.updated
                    && r.channel_name@ == Seq::<char>::empty() && r.error is None)
                &&& (i >= 0 && is_terminal(old(self).queue@[i].status) ==> final(self).queue@
                    == old(self).queue@ && r.found && !r.updated && r.channel_name == old(
                    self,
                ).queue@[i].channel_name && r.error is None)
                &&& (i >= 0 && !is_terminal(old(self).queue@[i].status) ==> ({
                    let err = if final_task_status(dl_status) is Failed {
                        error_message
                    } else {
                        None
                    };
                    &&& r.found
                    &&& r.updated
                    &&& r.channel_name == old(self).queue@[i].channel_name
                    &&& r.error == err
                    &&& final(self).queue@ == old(self).queue@.update(
                        i,
                        (ScheduledDownloadTask {
                            status: final_task_status(dl_status),
                            completed_at: Some(completed_at),
                            file_path: output_path,
                            file_size: file_size,
                            error_message: err,
                            ..old(self).queue@[i]
                        }),
                    )
                }))
            }),
    {
        let new_status = match dl_status {
            crate::recorder::RecStatus::Failed | crate::recorder::RecStatus::Cancelled => {
                TaskStatus::Failed
            },
            _ => TaskStatus::Completed,
        };
        match find_task_index(&self.queue, task_id.as_str()) {
            Some(i) => {
                proof {
                    lemma_task_find(self.queue@, task_id@);
                }
                let channel_name = self.queue[i].channel_name.clone();
                let already_done = match self.queue[i].status {
                    TaskStatus::Completed | TaskStatus::Failed | TaskStatus::Cancelled => true,
                    _ => false,
                };
                if already_done {
                    return FinishOutcome {
                        found: true,
                        updated: false,
                        new_status,
                        channel_name,
                        error: None,
                        pump_required: true,
                    };
                }
                let err = match new_status {
                    TaskStatus::Failed => clone_opt_string(&error_message),
                    _ => None,
                };
                let mut t = clone_task(&self.queue[i]);
                t.status = new_status;
                t.completed_at = Some(completed_at);
                t.file_path = output_path;
                t.file_size = file_size;
                t.error_message = match new_status {
                    TaskStatus::Failed => error_message,
                    _ => None,
                };
                self.queue.set(i, t);
                FinishOutcome {
                    found: true,
                    updated: true,
                    new_status,
                    channel_name,
                    error: err,
                    pump_required: true,
                }
            },
            None => FinishOutcome {
                found: false,
                updated: false,
                new_status,
                channel_name: String::new(),
                error: None,
                pump_required: true,
            },
        }
    }

    /// Cancel a scheduled task. A waiting task goes straight to cancelled;
    /// a downloading task's recording id is handed back so the caller can
    /// stop the recorder; a task already in a terminal state cannot be
    /// cancelled.
    pub fn cancel_scheduled_download(&mut self, task_id: &String, now_rfc: String) -> (r: Result<
        Option<String>,
        String,
    >)
        ensures
            final(self).triggered_streams@ == old(self).triggered_streams@,
            final(self).last_trigger_per_channel@ == old(self).last_trigger_per_channel@,
            ({
                let i = task_find(old(self).queue@, task_id@);
                &&& (i < 0 ==> (r matches Err(e) && e@ == "找不到此排程任務"@ && final(self).queue@
                    == old(self).queue@))
                &&& (i >= 0 && is_terminal(old(self).queue@[i].status) ==> (r matches Err(e) && e@
                    == "此任務已結束，無法取消"@ && final(self).queue@ == old(self).queue@))
                &&& (i >= 0 && !is_terminal(old(self).queue@[i].status) ==> (r matches Ok(dl) && dl
                    == old(self).queue@[i].download_task_id && final(self).queue@
                    == old(self).queue@.update(
                    i,
                    (ScheduledDownloadTask {
                        status: TaskStatus::Cancelled,
                        completed_at: Some(now_rfc),
                        ..old(self).queue@[i]
                    }),
                )))
            }),
    {
        match find_task_index(&self.queue, task_id.as_str()) {
            Some(i) => {
                proof {
                    lemma_task_find(self.queue@, task_id@);
                }
                let terminal = match self.queue[i].status {
                    TaskStatus::Completed | TaskStatus::Failed | TaskStatus::Cancelled => true,
                    _ => false,
                };
                if terminal {
                    return Err("此任務已結束，無法取消".to_owned());
                }
                let dl = clone_opt_string(&self.queue[i].download_task_id);
                let mut t = clone_task(&self.queue[i]);
                t.status = TaskStatus::Cancelled;
                t.completed_at = Some(now_rfc);
                self.queue.set(i, t);
                Ok(dl)
            },
            None => Err("找不到此排程任務".to_owned()),
        }
    }

    /// Queue a fresh attempt of a failed or cancelled task: a new task with
    /// a new id and the same preset, channel, stream and URL. The original
    /// stays in its terminal state.
    pub fn retry_scheduled_download(
        &mut self,
        task_id: &String,
        new_id: String,
        now: u64,
        now_rfc: String,
    ) -> (r: Result<ScheduledDownloadTask, String>)
        ensures
            final(self).triggered_streams@ == old(self).triggered_streams@,
            final(self).last_trigger_per_channel@ == old(self).last_trigger_per_channel@,
            ({
                let i = task_find(old(self).queue@, task_id@);
                &&& (i < 0 ==> (r matches Err(e) && e@ == "找不到此排程任務"@ && final(self).queue@
                    == old(self).queue@))
                &&& (i >= 0 && !(old(self).queue@[i].status is Failed || old(
                    self,
                ).queue@[i].status is Cancelled) ==> (r matches Err(e) && e@
                    == "只能重試失敗或已取消的任務"@ && final(self).queue@ == old(self).queue@))
                &&& (i >= 0 && (old(self).queue@[i].status is Failed || old(
                    self,
                ).queue@[i].status is Cancelled) ==> (r matches Ok(t) && t == spec_queued_task(
                    new_id,
                    old(self).queue@[i].preset_id,
                    old(self).queue@[i].channel_name,
                    old(self).queue@[i].platform,
                    old(self).queue@[i].stream_id,
                    old(self).queue@[i].stream_url,
                    now,
                    now_rfc,
                ) && final(self).queue@ == old(self).queue@.push(t)))
            }),
    {
        match find_task_index(&self.queue, task_id.as_str()) {
            Some(i) => {
                proof {
                    lemma_task_find(self.queue@, task_id@);
                }
                let retryable = match self.queue[i].status {
                    TaskStatus::Failed | TaskStatus::Cancelled => true,
                    _ => false,
                };
                if !retryable {
                    return Err("只能重試失敗或已取消的任務".to_owned());
                }
                let old_task = &self.queue[i];
                let new_task = ScheduledDownloadTask {
                    id: new_id,
                    preset_id: old_task.preset_id.clone(),
                    channel_name: old_task.channel_name.clone(),
                    platform: old_task.platform.clone(),
                    stream_id: old_task.stream_id.clone(),
                    stream_url: old_task.stream_url.clone(),
                    status: TaskStatus::Queued,
                    triggered_at: now_rfc,
                    triggered_epoch: now,
                    started_at: None,
                    completed_at: None,
                    file_path: None,
                    file_size: None,
                    error_message: None,
                    download_task_id: None,
                };
                let out = clone_task(&new_task);
                self.queue.push(new_task);
                Ok(out)
            },
            None => Err("找不到此排程任務".to_owned()),
        }
    }

    /// Mark a scheduled task failed with the given error; hands back the
    /// channel name for the failure event, empty when the task is unknown.
    pub fn mark_scheduled_task_failed(
        &mut self,
        task_id: &String,
        error: &String,
        now_rfc: String,
    ) -> (r: String)
        ensures
            final(self).triggered_streams@ == old(self).triggered_streams@,
            final(self).last_trigger_per_channel@ == old(self).last_trigger_per_channel@,
            ({
                let i = task_find(old(self).queue@, task_id@);
                &&& (i < 0 ==> final(self).queue@ == old(self).queue@ && r@
                    == Seq::<char>::empty())
                &&& (i >= 0 ==> r == old(self).queue@[i].channel_name && final(self).queue@ == old(
                    self,
                ).queue@.update(
                    i,
                    (ScheduledDownloadTask {
                        status: TaskStatus::Failed,
                        error_message: Some((*error)),
                        completed_at: Some(now_rfc),
                        ..old(self).queue@[i]
                    }),
                ))
            }),
    {
        match find_task_index(&self.queue, task_id.as_str()) {
            Some(i) => {
                proof {
                    lemma_task_find(self.queue@, task_id@);
                }
                let channel_name = self.queue[i].channel_name.clone();
                let mut t = clone_task(&self.queue[i]);
                t.status = TaskStatus::Failed;
                t.error_message = Some(error.clone());
                t.completed_at = Some(now_rfc);
                self.queue.set(i, t);
                channel_name
            },
            None => String::new(),
        }
    }

    /// Store the recording-task id on the scheduled task that spawned it.
    pub fn link_download_task(&mut self, task_id: &String, dl_task_id: String) -> (r: bool)
        ensures
            final(self).triggered_streams@ == old(self).triggered_streams@,
            final(self).last_trigger_per_channel@ == old(self).last_trigger_per_channel@,
            ({
                let i = task_find(old(self).queue@, task_id@);
                &&& (i < 0 ==> !r && final(self).queue@ == old(self).queue@)
                &&& (i >= 0 ==> r && final(self).queue@ == old(self).queue@.update(
                    i,
                    (ScheduledDownloadTask {
                        download_task_id: Some(dl_task_id),
                        ..old(self).queue@[i]
                    }),
                ))
            }),
    {
        match find_task_index(&self.queue, task_id.as_str()) {
            Some(i) => {
                proof {
                    lemma_task_find(self.queue@, task_id@);
                }
                let mut t = clone_task(&self.queue[i]);
                t.download_task_id = Some(dl_task_id);
                self.queue.set(i, t);
                true
            },
            None => false,
        }
    }

    /// A snapshot of the whole queue, for the queue-update event.
    pub fn get_scheduled_download_queue(&self) -> (r: Vec<ScheduledDownloadTask>)
        ensures
            r@ == self.queue@,
    {
        let mut out: Vec<ScheduledDownloadTask> = Vec::new();
        let mut i: usize = 0;
        while i < self.queue.len()
            invariant
                i <= self.queue@.len(),
                out@ == self.queue@.subrange(0, i as int),
            decreases self.queue@.len() - i,
        {
            let t = clone_task(&self.queue[i]);
            out.push(t);
            proof {
                assert(out@ =~= self.queue@.subrange(0, i + 1));
            }
            i += 1;
        }
        proof {
            assert(self.queue@.subrange(0, self.queue@.len() as int) =~= self.queue@);
        }
        out
    }
}

// ── Laws of the pipeline ────────────────────────────────────────────────

/// A task that still occupies its stream: not terminal and triggered
/// within the ledger's retention window.
pub open spec fn live_at(t: ScheduledDownloadTask, now: int) -> bool {
    !is_terminal(t.status) && entry_fresh(now, t.triggered_epoch as int)
}

/// The stream ledger covers the task: its stream id is on record, with a
/// time no older than the task's trigger.
pub open spec fn stream_covered(streams: Seq<(String, u64)>, t: ScheduledDownloadTask) -> bool {
    ledger_has(streams, t.stream_id@) && ledger_time(streams, t.stream_id@)
        >= t.triggered_epoch as int
}

/// No two live tasks capture the same stream.
pub open spec fn unique_live_streams(q: Seq<ScheduledDownloadTask>, now: int) -> bool {
    forall|i: int, j: int|
        0 <= i < j < q.len() && live_at(#[trigger] q[i], now) && live_at(#[trigger] q[j], now)
            ==> q[i].stream_id@ != q[j].stream_id@
}

/// The well-formedness the trigger pipeline maintains: ledger keys are
/// unique, no task is triggered in the future, every live task's stream is
/// on record, and no stream is captured twice.
pub open spec fn sched_inv(s: ScheduledDownloadState, now: int) -> bool {
    &&& keys_unique(s.triggered_streams@)
    &&& keys_unique(s.last_trigger_per_channel@)
    &&& forall|i: int|
        0 <= i < s.queue@.len() ==> (#[trigger] s.queue@[i]).triggered_epoch as int <= now
    &&& forall|i: int|
        0 <= i < s.queue@.len() && live_at(#[trigger] s.queue@[i], now) ==> stream_covered(
            s.triggered_streams@,
            s.queue@[i],
        )
    &&& unique_live_streams(s.queue@, now)
}

/// A state with empty ledgers and an empty queue satisfies the pipeline
/// invariant, so the invariant holds inductively from start-up through
/// every trigger and every in-place task transition.
pub proof fn lemma_empty_state_invariant(s: ScheduledDownloadState, now: int)
    requires
        s.triggered_streams@.len() == 0,
        s.last_trigger_per_channel@.len() == 0,
        s.queue@.len() == 0,
    ensures
        sched_inv(s, now),
{
}

/// The invariant survives the passage of time: what holds now still holds
/// at any later instant.
pub proof fn lemma_inv_monotone(s: ScheduledDownloadState, now: int, later: int)
    requires
        sched_inv(s, now),
        now <= later,
    ensures
        sched_inv(s, later),
{
    assert forall|i: int|
        0 <= i < s.queue@.len() && live_at(#[trigger] s.queue@[i], later) implies stream_covered(
        s.triggered_streams@,
        s.queue@[i],
    ) by {
        assert(live_at(s.queue@[i], now));
    }
    assert forall|i: int, j: int|
        0 <= i < j < s.queue@.len() && live_at(#[trigger] s.queue@[i], later) && live_at(
            #[trigger] s.queue@[j],
            later,
        ) implies s.queue@[i].stream_id@ != s.queue@[j].stream_id@ by {
        assert(live_at(s.queue@[i], now) && live_at(s.queue@[j], now));
    }
}

/// An admitted trigger — one that passed the de-duplication gate — keeps
/// the pipeline invariant. In particular the new task is the only live
/// task capturing its stream: for any stream id, at most one task is live
/// for it at a time.
pub proof fn lemma_trigger_preserves_invariant(
    s1: ScheduledDownloadState,
    s2: ScheduledDownloadState,
    stream_id: String,
    channel_id: String,
    task: ScheduledDownloadTask,
    now: u64,
)
    requires
        sched_inv(s1, now as int),
        !ledger_has(spec_prune_ledger(s1.triggered_streams@, now as int), stream_id@),
        s2.triggered_streams@ == spec_upsert(
            spec_prune_ledger(s1.triggered_streams@, now as int),
            (stream_id, now),
        ),
        s2.last_trigger_per_channel@ == spec_upsert(
            spec_prune_ledger(s1.last_trigger_per_channel@, now as int),
            (channel_id, now),
        ),
        s2.queue@ == s1.queue@.push(task),
        task.stream_id == stream_id,
        task.triggered_epoch == now,
    ensures
        sched_inv(s2, now as int),
{
    let n = now as int;
    let streams1 = s1.triggered_streams@;
    let pruned = spec_prune_ledger(streams1, n);
    let streams2 = s2.triggered_streams@;
    lemma_prune_unique(streams1, n);
    lemma_upsert_props(pruned, (stream_id, now));
    lemma_prune_unique(s1.last_trigger_per_channel@, n);
    lemma_upsert_props(spec_prune_ledger(s1.last_trigger_per_channel@, n), (channel_id, now));
    let q1 = s1.queue@;
    let q2 = s2.queue@;
    assert(forall|i: int| 0 <= i < q1.len() ==> q2[i] == q1[i]);
    assert(q2[q1.len() as int] == task);
    // Every live task of the old queue keeps a fresh ledger entry through
    // the pruning, and the upsert does not lower any entry's time.
    assert forall|i: int|
        0 <= i < q2.len() && live_at(#[trigger] q2[i], n) implies stream_covered(
        streams2,
        q2[i],
    ) by {
        if i < q1.len() {
            assert(live_at(q1[i], n));
            assert(stream_covered(streams1, q1[i]));
            let k = q1[i].stream_id@;
            assert(entry_fresh(n, ledger_time(streams1, k))) by {
                assert(ledger_time(streams1, k) >= q1[i].triggered_epoch as int);
            };
            assert(ledger_has(pruned, k) && ledger_time(pruned, k) == ledger_time(streams1, k));
            if k == stream_id@ {
                assert(false);
            } else {
                assert(ledger_has(streams2, k) && ledger_time(streams2, k) == ledger_time(
                    pruned,
                    k,
                ));
            }
        } else {
            assert(q2[i] == task);
            assert(ledger_has(streams2, stream_id@) && ledger_time(streams2, stream_id@)
                == now as int);
        }
    }
    // Uniqueness: the old live tasks' streams all stand in the pruned
    // ledger, and the de-duplication gate ruled the new stream out of it.
    assert forall|i: int, j: int|
        0 <= i < j < q2.len() && live_at(#[trigger] q2[i], n) && live_at(
            #[trigger] q2[j],
            n,
        ) implies q2[i].stream_id@ != q2[j].stream_id@ by {
        if j < q1.len() {
            assert(live_at(q1[i], n) && live_at(q1[j], n));
        } else {
            assert(q2[j] == task);
            assert(live_at(q1[i], n));
            assert(stream_covered(streams1, q1[i]));
            let k = q1[i].stream_id@;
            assert(entry_fresh(n, ledger_time(streams1, k))) by {
                assert(ledger_time(streams1, k) >= q1[i].triggered_epoch as int);
            };
            assert(ledger_has(pruned, k));
        }
    }
}

/// Replacing a task in place — the pump's promotion, a cancellation, a
/// completion or a failure — keeps the pipeline invariant, provided the
/// replacement keeps the stream id and trigger time and does not bring a
/// terminal task back to life.
pub proof fn lemma_update_preserves_invariant(
    s1: ScheduledDownloadState,
    s2: ScheduledDownloadState,
    i: int,
    t: ScheduledDownloadTask,
    now: int,
)
    requires
        sched_inv(s1, now),
        0 <= i < s1.queue@.len(),
        s2.triggered_streams@ == s1.triggered_streams@,
        s2.last_trigger_per_channel@ == s1.last_trigger_per_channel@,
        s2.queue@ == s1.queue@.update(i, t),
        t.stream_id == s1.queue@[i].stream_id,
        t.triggered_epoch == s1.queue@[i].triggered_epoch,
        !is_terminal(t.status) ==> !is_terminal(s1.queue@[i].status),
    ensures
        sched_inv(s2, now),
{
    let q1 = s1.queue@;
    let q2 = s2.queue@;
    assert(forall|j: int| 0 <= j < q2.len() && j != i ==> q2[j] == q1[j]);
    assert(q2[i] == t);
    assert forall|j: int|
        0 <= j < q2.len() && live_at(#[trigger] q2[j], now) implies stream_covered(
        s2.triggered_streams@,
        q2[j],
    ) by {
        if j == i {
            assert(live_at(q1[i], now));
            assert(stream_covered(s1.triggered_streams@, q1[i]));
        } else {
            assert(live_at(q1[j], now));
        }
    }
    assert forall|a: int, b: int|
        0 <= a < b < q2.len() && live_at(#[trigger] q2[a], now) && live_at(
            #[trigger] q2[b],
            now,
        ) implies q2[a].stream_id@ != q2[b].stream_id@ by {
        assert(live_at(q1[a], now) && live_at(q1[b], now));
    }
}

/// Two triggers for one channel respect the cooldown: right after an
/// admitted trigger at `t1`, the cooldown gate blocks the channel at any
/// `t2` within the cooldown window, as long as the ledger entry has not
/// aged out.
pub proof fn lemma_cooldown_suppression(
    channels: Seq<(String, u64)>,
    channel_id: String,
    t1: u64,
    t2: u64,
    cooldown: u64,
)
    requires
        keys_unique(channels),
        t1 <= t2,
        t2 - t1 < cooldown,
        t2 - t1 < LEDGER_RETENTION_SECS,
    ensures
        cooldown_blocked(
            spec_prune_ledger(
                spec_upsert(spec_prune_ledger(channels, t1 as int), (channel_id, t1)),
                t2 as int,
            ),
            channel_id@,
            t2 as int,
            cooldown as int,
        ),
{
    let pruned1 = spec_prune_ledger(channels, t1 as int);
    lemma_prune_unique(channels, t1 as int);
    let after = spec_upsert(pruned1, (channel_id, t1));
    lemma_upsert_props(pruned1, (channel_id, t1));
    assert(ledger_has(after, channel_id@) && ledger_time(after, channel_id@) == t1 as int);
    lemma_prune_unique(after, t2 as int);
    let pruned2 = spec_prune_ledger(after, t2 as int);
    assert(entry_fresh(t2 as int, t1 as int));
    assert(ledger_has(pruned2, channel_id@) && ledger_time(pruned2, channel_id@) == t1 as int);
}

/// The concurrency cap holds: when the recorder tasks respect the cap and
/// a new one is admitted only below the cap — as the queue pump admits —
/// the count still respects the cap afterwards.
pub proof fn lemma_concurrency_cap(
    statuses: Seq<crate::recorder::RecStatus>,
    s: crate::recorder::RecStatus,
    max: int,
)
    requires
        crate::recorder::count_active(statuses) <= max,
        crate::recorder::is_active(s) ==> crate::recorder::count_active(statuses) < max,
    ensures
        crate::recorder::count_active(statuses.push(s)) <= max,
{
    crate::recorder::lemma_count_active_push(statuses, s);
}

/// The pump only ever moves a waiting task to downloading: the one index
/// it touches held a queued task, every other task is untouched, and no
/// transition leads back to waiting — so each task is admitted at most
/// once.
pub proof fn lemma_pump_admits_only_queued(
    q: Seq<ScheduledDownloadTask>,
    active: int,
    max: int,
    now_rfc: String,
)
    ensures
        ({
            let q2 = spec_pump_queue(q, active, max, now_rfc);
            &&& q2.len() == q.len()
            &&& forall|i: int|
                0 <= i < q.len() && #[trigger] q2[i] != q[i] ==> q[i].status is Queued
                    && q2[i].status is Downloading
        }),
{
    lemma_first_queued(q);
}

/// Pumping an idle queue is a no-op, so pumping it twice changes nothing
/// either time: only the queue-update event is repeated.
pub proof fn lemma_pump_idempotent_on_idle(
    q: Seq<ScheduledDownloadTask>,
    active1: int,
    active2: int,
    max1: int,
    max2: int,
    rfc1: String,
    rfc2: String,
)
    requires
        first_queued(q) < 0,
    ensures
        spec_pump_queue(q, active1, max1, rfc1) == q,
        spec_pump_queue(spec_pump_queue(q, active1, max1, rfc1), active2, max2, rfc2) == q,
{
}

/// A retried task keeps streams unique as long as no other task is still
/// live for its stream: the retry appends a fresh task for a stream whose
/// earlier capture has ended.
pub proof fn lemma_retry_unique_streams(
    q1: Seq<ScheduledDownloadTask>,
    q2: Seq<ScheduledDownloadTask>,
    t: ScheduledDownloadTask,
    now: int,
)
    requires
        unique_live_streams(q1, now),
        q2 == q1.push(t),
        forall|i: int|
            0 <= i < q1.len() && live_at(#[trigger] q1[i], now) ==> q1[i].stream_id@
                != t.stream_id@,
    ensures
        unique_live_streams(q2, now),
{
    assert(forall|i: int| 0 <= i < q1.len() ==> q2[i] == q1[i]);
    assert(q2[q1.len() as int] == t);
    assert forall|i: int, j: int|
        0 <= i < j < q2.len() && live_at(#[trigger] q2[i], now) && live_at(
            #[trigger] q2[j],
            now,
        ) implies q2[i].stream_id@ != q2[j].stream_id@ by {
        if j < q1.len() {
            assert(live_at(q1[i], now) && live_at(q1[j], now));
        } else {
            assert(live_at(q1[i], now));
        }
    }
}

} // verus!

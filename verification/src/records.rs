//! The local records store as the engine sees it: records, folders, and
//! the pure list operations the host performs on them.

use vstd::prelude::*;
use vstd::string::*;

use crate::strutil::{has_sub, contains_sub, str_eq};
use crate::outside::{lower_of, lowercase};

verus! {

/// One saved record.
#[derive(Debug, Clone)]
pub struct Record {
    pub id: String,
    pub timestamp: String,
    pub live_time: String,
    pub title: String,
    pub topic: String,
    pub folder_id: Option<String>,
    pub channel_url: String,
    pub platform: String,
    pub sort_order: i32,
}

/// One folder of records.
#[derive(Debug, Clone)]
pub struct Folder {
    pub id: String,
    pub name: String,
    pub created: String,
    pub sort_order: i32,
}

/// The whole records store.
#[derive(Debug, Clone)]
pub struct RecordsData {
    pub records: Vec<Record>,
    pub folders: Vec<Folder>,
    pub folder_order: Vec<String>,
}

/// An equal copy of a record, field by field.
pub fn clone_record(r: &Record) -> (out: Record)
    ensures
        out == *r,
{
    let out = Record {
        id: r.id.clone(),
        timestamp: r.timestamp.clone(),
        live_time: r.live_time.clone(),
        title: r.title.clone(),
        topic: r.topic.clone(),
        folder_id: crate::sched::clone_opt_string(&r.folder_id),
        channel_url: r.channel_url.clone(),
        platform: r.platform.clone(),
        sort_order: r.sort_order,
    };
    proof {
        assert(out == *r);
    }
    out
}

/// A record matches a folded query when the query occurs in its folded
/// title, topic or channel URL.
pub open spec fn record_matches(r: Record, q: Seq<char>) -> bool {
    has_sub(lower_of(r.title@), q) || has_sub(lower_of(r.topic@), q) || has_sub(
        lower_of(r.channel_url@),
        q,
    )
}

/// The records matching a folded query, in order.
pub open spec fn spec_search(records: Seq<Record>, q: Seq<char>) -> Seq<Record>
    decreases records.len(),
{
    if records.len() == 0 {
        records
    } else {
        let rest = spec_search(records.drop_first(), q);
        if record_matches(records[0], q) {
            seq![records[0]] + rest
        } else {
            rest
        }
    }
}

/// Search the records with a case-folded substring match over title,
/// topic and channel URL; a blank query returns everything.
#[verifier::loop_isolation(false)]
pub fn search_records(records: &Vec<Record>, query: &str) -> (r: Vec<Record>)
    ensures
        crate::strutil::spec_trim(query@).len() == 0 ==> r@ == records@,
        crate::strutil::spec_trim(query@).len() > 0 ==> r@ == spec_search(
            records@,
            lower_of(query@),
        ),
{
    let trimmed = crate::strutil::trim_str(query);
    if trimmed.as_str().unicode_len() == 0 {
        let mut out: Vec<Record> = Vec::new();
        let mut i: usize = 0;
        while i < records.len()
            invariant
                i <= records@.len(),
                out@ == records@.subrange(0, i as int),
            decreases records@.len() - i,
        {
            let c = clone_record(&records[i]);
            out.push(c);
            proof {
                assert(out@ =~= records@.subrange(0, i + 1));
            }
            i += 1;
        }
        proof {
            assert(records@.subrange(0, records@.len() as int) =~= records@);
        }
        return out;
    }
    let q = lowercase(query);
    let mut kept: Vec<Record> = Vec::new();
    let mut i: usize = 0;
    proof {
        assert(records@.subrange(0, records@.len() as int) =~= records@);
        assert(kept@ + spec_search(records@, q@) =~= spec_search(records@, q@));
    }
    while i < records.len()
        invariant
            i <= records@.len(),
            q@ == lower_of(query@),
            kept@ + spec_search(records@.subrange(i as int, records@.len() as int), q@)
                == spec_search(records@, q@),
        decreases records@.len() - i,
    {
        let ghost rest = records@.subrange(i as int, records@.len() as int);
        proof {
            assert(rest.drop_first() =~= records@.subrange(i + 1, records@.len() as int));
            assert(rest[0] == records@[i as int]);
        }
        let title_l = lowercase(records[i].title.as_str());
        let topic_l = lowercase(records[i].topic.as_str());
        let url_l = lowercase(records[i].channel_url.as_str());
        let hit = contains_sub(title_l.as_str(), q.as_str()) || contains_sub(
            topic_l.as_str(),
            q.as_str(),
        ) || contains_sub(url_l.as_str(), q.as_str());
        if hit {
            let ghost prev = kept@;
            let c = clone_record(&records[i]);
            kept.push(c);
            proof {
                assert(kept@ =~= prev + seq![records@[i as int]]);
                assert(kept@ + spec_search(
                    records@.subrange(i + 1, records@.len() as int),
                    q@,
                ) =~= prev + (seq![records@[i as int]] + spec_search(
                    records@.subrange(i + 1, records@.len() as int),
                    q@,
                )));
            }
        }
        i += 1;
    }
    proof {
        assert(records@.subrange(records@.len() as int, records@.len() as int)
            =~= Seq::<Record>::empty());
        assert(kept@ + Seq::<Record>::empty() =~= kept@);
    }
    kept
}

/// Remove the record with the given id, keeping the order of the rest.
pub open spec fn spec_remove_record(records: Seq<Record>, id: Seq<char>) -> Seq<Record>
    decreases records.len(),
{
    if records.len() == 0 {
        records
    } else if records[0].id@ == id {
        spec_remove_record(records.drop_first(), id)
    } else {
        seq![records[0]] + spec_remove_record(records.drop_first(), id)
    }
}

/// Delete a record by id.
#[verifier::loop_isolation(false)]
pub fn delete_record(records: &mut Vec<Record>, id: &str)
    ensures
        final(records)@ == spec_remove_record(old(records)@, id@),
{
    let mut kept: Vec<Record> = Vec::new();
    let mut i: usize = 0;
    proof {
        assert(records@.subrange(0, records@.len() as int) =~= records@);
        assert(kept@ + spec_remove_record(records@, id@) =~= spec_remove_record(records@, id@));
    }
    while i < records.len()
        invariant
            records@ == old(records)@,
            i <= records@.len(),
            kept@ + spec_remove_record(records@.subrange(i as int, records@.len() as int), id@)
                == spec_remove_record(records@, id@),
        decreases records@.len() - i,
    {
        let ghost rest = records@.subrange(i as int, records@.len() as int);
        proof {
            assert(rest.drop_first() =~= records@.subrange(i + 1, records@.len() as int));
            assert(rest[0] == records@[i as int]);
        }
        if !str_eq(records[i].id.as_str(), id) {
            let ghost prev = kept@;
            let c = clone_record(&records[i]);
            kept.push(c);
            proof {
                assert(kept@ =~= prev + seq![records@[i as int]]);
                assert(kept@ + spec_remove_record(
                    records@.subrange(i + 1, records@.len() as int),
                    id@,
                ) =~= prev + (seq![records@[i as int]] + spec_remove_record(
                    records@.subrange(i + 1, records@.len() as int),
                    id@,
                )));
            }
        }
        i += 1;
    }
    proof {
        assert(records@.subrange(records@.len() as int, records@.len() as int)
            =~= Seq::<Record>::empty());
        assert(kept@ + Seq::<Record>::empty() =~= kept@);
    }
    *records = kept;
}

/// Index of the first record with the given id; negative when absent.
pub open spec fn record_find(records: Seq<Record>, id: Seq<char>) -> int
    decreases records.len(),
{
    if records.len() == 0 {
        -1
    } else if records[0].id@ == id {
        0
    } else {
        let r = record_find(records.drop_first(), id);
        if r == -1 {
            -1
        } else {
            r + 1
        }
    }
}

/// When the id stands at `i` and nowhere earlier, `record_find` returns it.
proof fn lemma_record_find_is(records: Seq<Record>, id: Seq<char>, i: int)
    requires
        0 <= i < records.len(),
        records[i].id@ == id,
        forall|j: int| 0 <= j < i ==> records[j].id@ != id,
    ensures
        record_find(records, id) == i,
    decreases i,
{
    if i > 0 {
        assert(forall|j: int|
            1 <= j < records.len() ==> records[j] == records.drop_first()[j - 1]);
        lemma_record_find_is(records.drop_first(), id, i - 1);
    }
}

/// What `record_find` returns when nothing carries the id.
proof fn lemma_record_find(records: Seq<Record>, id: Seq<char>)
    ensures
        record_find(records, id) == -1 ==> forall|j: int|
            0 <= j < records.len() ==> records[j].id@ != id,
        record_find(records, id) != -1 ==> 0 <= record_find(records, id) < records.len()
            && records[record_find(records, id)].id@ == id,
    decreases records.len(),
{
    if records.len() > 0 && records[0].id@ != id {
        lemma_record_find(records.drop_first(), id);
        assert(forall|j: int|
            1 <= j < records.len() ==> records[j] == records.drop_first()[j - 1]);
    }
}

/// Replace the record carrying the same id; an unknown id reports the
/// error and changes nothing.
#[verifier::loop_isolation(false)]
pub fn update_record(records: &mut Vec<Record>, record: Record) -> (r: Result<(), String>)
    ensures
        ({
            let i = record_find(old(records)@, record.id@);
            &&& (i >= 0 ==> r is Ok && final(records)@ == old(records)@.update(i, record))
            &&& (i < 0 ==> (r matches Err(e) && e@ == "Record not found"@ && final(records)@ == old(
                records,
            )@))
        }),
{
    let mut i: usize = 0;
    while i < records.len()
        invariant
            records@ == old(records)@,
            i <= records@.len(),
            forall|j: int| 0 <= j < i ==> records@[j].id@ != record.id@,
        decreases records@.len() - i,
    {
        if str_eq(records[i].id.as_str(), record.id.as_str()) {
            proof {
                lemma_record_find_is(records@, record.id@, i as int);
            }
            records.set(i, record);
            return Ok(());
        }
        i += 1;
    }
    proof {
        lemma_record_find(records@, record.id@);
        if record_find(records@, record.id@) >= 0 {
            let k = record_find(records@, record.id@);
            assert(records@[k].id@ != record.id@);
        }
    }
    Err("Record not found".to_owned())
}

/// The record sits in the given folder.
pub open spec fn in_folder(r: Record, fid: Seq<char>) -> bool {
    match r.folder_id {
        Some(f) => f@ == fid,
        None => false,
    }
}

/// Move every record of the given folder out of it, into no folder.
#[verifier::loop_isolation(false)]
pub fn uncategorize_folder(records: &mut Vec<Record>, folder_id: &str)
    ensures
        final(records)@.len() == old(records)@.len(),
        forall|j: int|
            0 <= j < old(records)@.len() ==> #[trigger] final(records)@[j] == if in_folder(
                old(records)@[j],
                folder_id@,
            ) {
                Record { folder_id: None, ..old(records)@[j] }
            } else {
                old(records)@[j]
            },
{
    let mut i: usize = 0;
    while i < records.len()
        invariant
            records@.len() == old(records)@.len(),
            i <= records@.len(),
            forall|j: int| i <= j < records@.len() ==> #[trigger] records@[j] == old(records)@[j],
            forall|j: int|
                0 <= j < i ==> #[trigger] records@[j] == if in_folder(
                    old(records)@[j],
                    folder_id@,
                ) {
                    Record { folder_id: None, ..old(records)@[j] }
                } else {
                    old(records)@[j]
                },
        decreases records@.len() - i,
    {
        let sits = match &records[i].folder_id {
            Some(f) => str_eq(f.as_str(), folder_id),
            None => false,
        };
        if sits {
            let mut c = clone_record(&records[i]);
            c.folder_id = None;
            records.set(i, c);
        }
        i += 1;
    }
}

} // verus!

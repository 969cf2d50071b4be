//! Saved sync records: the modes a record may carry, the id and time stamp a
//! new record gets, and how saving and deleting change the list of records.
use vstd::prelude::*;
use vstd::string::*;
use crate::text::{concat_str, decimal, decimal_string, hex, hex_string, str_eq};
use crate::sync::{unknown_mode_message, SyncMode};

verus! {

/// A saved sync: where from, where to, at which ref and in which mode.
#[derive(Debug)]
pub struct SyncRecord {
    pub id: String,
    pub name: String,
    pub from_path: String,
    pub to_path: String,
    pub ref_name: Option<String>,
    pub sync_mode: String,
    pub created_at: String,
}

/// A sync record's texts as character sequences.
pub struct RecordView {
    pub id: Seq<char>,
    pub name: Seq<char>,
    pub from_path: Seq<char>,
    pub to_path: Seq<char>,
    pub ref_name: Option<Seq<char>>,
    pub sync_mode: Seq<char>,
    pub created_at: Seq<char>,
}

/// The view of an optional text.
pub open spec fn opt_view(o: Option<String>) -> Option<Seq<char>> {
    match o {
        Some(s) => Some(s@),
        None => None,
    }
}

impl View for SyncRecord {
    type V = RecordView;

    open spec fn view(&self) -> RecordView {
        RecordView {
            id: self.id@,
            name: self.name@,
            from_path: self.from_path@,
            to_path: self.to_path@,
            ref_name: opt_view(self.ref_name),
            sync_mode: self.sync_mode@,
            created_at: self.created_at@,
        }
    }
}

/// The views of a list of records.
pub open spec fn records_view(rs: Seq<SyncRecord>) -> Seq<RecordView> {
    rs.map_values(|r: SyncRecord| r@)
}

fn copy_text(o: &Option<String>) -> (r: Option<String>)
    ensures
        opt_view(r) == opt_view(*o),
{
    match o {
        Some(s) => Some(s.clone()),
        None => None,
    }
}

impl SyncRecord {
    /// A copy of this record.
    pub fn duplicate(&self) -> (r: SyncRecord)
        ensures
            r@ == self@,
    {
        SyncRecord {
            id: self.id.clone(),
            name: self.name.clone(),
            from_path: self.from_path.clone(),
            to_path: self.to_path.clone(),
            ref_name: copy_text(&self.ref_name),
            sync_mode: self.sync_mode.clone(),
            created_at: self.created_at.clone(),
        }
    }
}

/// The mode names a record may carry.
pub open spec fn is_known_mode(name: Seq<char>) -> bool {
    ||| name == "full"@
    ||| name == "incremental"@
    ||| name == "clean"@
    ||| name == "replace"@
    ||| name == "merge"@
}

/// The mode a record carries when none was given.
pub fn default_sync_mode() -> (mode: String)
    ensures
        mode@ == "full"@,
{
    String::from_str("full")
}

/// The mode name to store: the one given, or "full"; a name that is not one
/// of the known modes is refused.
pub fn normalize_sync_mode(sync_mode: Option<String>) -> (r: Result<String, String>)
    ensures
        ({
            let name = match sync_mode {
                Some(v) => v@,
                None => "full"@,
            };
            if is_known_mode(name) {
                r matches Ok(m) && m@ == name
            } else {
                r matches Err(e) && e@ == unknown_mode_message(name)
            }
        }),
{
    let mode = match sync_mode {
        Some(v) => v,
        None => default_sync_mode(),
    };
    let m = mode.as_str();
    if str_eq(m, "full") || str_eq(m, "incremental") || str_eq(m, "clean") || str_eq(m, "replace")
        || str_eq(m, "merge") {
        Ok(mode)
    } else {
        Err(concat_str("未知同步模式: ", m))
    }
}

/// The number behind a new record's id: the low 32 bits of the time in
/// milliseconds, XOR 0xDEADBEEF.
pub open spec fn id_number(now_millis: u128) -> u32 {
    ((now_millis % 0x1_0000_0000) as u32) ^ 0xDEAD_BEEFu32
}

/// A new record's id: `id_number` in lower-case hexadecimal.
pub fn uuid_like_id(now_millis: u128) -> (id: String)
    ensures
        id@ == hex(id_number(now_millis) as nat),
{
    let low = (now_millis & 0xFFFF_FFFF) as u32;
    assert(now_millis & 0xFFFF_FFFF == now_millis % 0x1_0000_0000) by (bit_vector);
    let n = low ^ 0xDEAD_BEEFu32;
    hex_string(n as u64)
}

/// A new record's time stamp: the time in seconds, in decimal.
pub fn chrono_now_string(now_secs: u64) -> (s: String)
    ensures
        s@ == decimal(now_secs as nat),
{
    decimal_string(now_secs)
}


/// Whether `k` is the first index of `rs` whose record has id `id`.
pub open spec fn first_with_id(rs: Seq<RecordView>, id: Seq<char>, k: int) -> bool {
    &&& 0 <= k < rs.len()
    &&& rs[k].id == id
    &&& forall|j: int| 0 <= j < k ==> rs[j].id != id
}

/// Whether some record of `rs` has id `id`.
pub open spec fn has_id(rs: Seq<RecordView>, id: Seq<char>) -> bool {
    exists|k: int| 0 <= k < rs.len() && rs[k].id == id
}

/// The message when no record has the id asked for.
pub open spec fn missing_record_message() -> Seq<char> {
    "记录不存在"@
}

/// `old` with its name, paths, ref and mode replaced; id and time stamp kept.
pub open spec fn edited(
    old: RecordView,
    name: Seq<char>,
    from_path: Seq<char>,
    to_path: Seq<char>,
    ref_name: Option<Seq<char>>,
    sync_mode: Seq<char>,
) -> RecordView {
    RecordView { name, from_path, to_path, ref_name, sync_mode, ..old }
}

/// The mode name that an optional mode stands for, "full" where none is given.
pub open spec fn mode_or_full(sync_mode: Option<String>) -> Seq<char> {
    match sync_mode {
        Some(v) => v@,
        None => "full"@,
    }
}

/// Saves a record into `records`. With an `id`, the first record with that
/// id is edited (its id and time stamp stay); without one, a new record is
/// appended, whose id comes from `now_millis` and whose time stamp is
/// `now_secs`. An unknown mode, or an id that no record has, is refused and
/// leaves `records` as it was.
pub fn save_sync_record(
    records: &mut Vec<SyncRecord>,
    id: Option<String>,
    name: String,
    from_path: String,
    to_path: String,
    ref_name: Option<String>,
    sync_mode: Option<String>,
    now_millis: u128,
    now_secs: u64,
) -> (r: Result<SyncRecord, String>)
    ensures
        !is_known_mode(mode_or_full(sync_mode)) ==> {
            &&& r matches Err(e) && e@ == unknown_mode_message(mode_or_full(sync_mode))
            &&& final(records)@ == old(records)@
        },
        is_known_mode(mode_or_full(sync_mode)) ==> match id {
            Some(eid) => {
                &&& !has_id(records_view(old(records)@), eid@) ==> {
                    &&& r matches Err(e) && e@ == missing_record_message()
                    &&& final(records)@ == old(records)@
                }
                &&& forall|k: int| #![trigger first_with_id(records_view(old(records)@), eid@, k)]
                    first_with_id(records_view(old(records)@), eid@, k) ==> {
                        let updated = edited(
                            records_view(old(records)@)[k],
                            name@,
                            from_path@,
                            to_path@,
                            opt_view(ref_name),
                            mode_or_full(sync_mode),
                        );
                        &&& r matches Ok(rec) && rec@ == updated
                        &&& records_view(final(records)@) == records_view(old(records)@).update(k, updated)
                    }
            },
            None => {
                let created = RecordView {
                    id: hex(id_number(now_millis) as nat),
                    name: name@,
                    from_path: from_path@,
                    to_path: to_path@,
                    ref_name: opt_view(ref_name),
                    sync_mode: mode_or_full(sync_mode),
                    created_at: decimal(now_secs as nat),
                };
                &&& r matches Ok(rec) && rec@ == created
                &&& records_view(final(records)@) == records_view(old(records)@).push(created)
            },
        },
{
    let mode = match normalize_sync_mode(sync_mode) {
        Ok(m) => m,
        Err(e) => return Err(e),
    };
    let ghost old_view = records_view(records@);
    match id {
        Some(eid) => {
            let n = records.len();
            let mut i: usize = 0;
            while i < n
                invariant
                    n == records@.len(),
                    records@ == old(records)@,
                    old_view == records_view(records@),
                    i <= n,
                    forall|j: int| 0 <= j < i ==> old_view[j].id != eid@,
                    is_known_mode(mode_or_full(sync_mode)),
                    mode@ == mode_or_full(sync_mode),
                    id == Some(eid),
                decreases n - i,
            {
                if str_eq(records[i].id.as_str(), eid.as_str()) {
                    let rec = SyncRecord {
                        id: records[i].id.clone(),
                        name,
                        from_path,
                        to_path,
                        ref_name,
                        sync_mode: mode,
                        created_at: records[i].created_at.clone(),
                    };
                    let out = rec.duplicate();
                    records.set(i, rec);
                    assert(first_with_id(old_view, eid@, i as int));
                    assert forall|k: int| first_with_id(old_view, eid@, k) implies k == i by {
                        if k > i {
                            assert(old_view[i as int].id == eid@);
                        }
                    }
                    assert(records_view(records@) =~= old_view.update(i as int, out@));
                    return Ok(out);
                }
                i = i + 1;
            }
            assert(!has_id(old_view, eid@));
            Err(String::from_str("记录不存在"))
        },
        None => {
            let rec = SyncRecord {
                id: uuid_like_id(now_millis),
                name,
                from_path,
                to_path,
                ref_name,
                sync_mode: mode,
                created_at: chrono_now_string(now_secs),
            };
            let out = rec.duplicate();
            records.push(rec);
            assert(records_view(records@) =~= old_view.push(out@));
            Ok(out)
        },
    }
}


/// The records of `rs` whose id is not `id`, in their order.
pub open spec fn without_id(rs: Seq<RecordView>, id: Seq<char>) -> Seq<RecordView> {
    rs.filter(|r: RecordView| r.id != id)
}

/// Deletes every record with id `id` from `records`, keeping the others in
/// their order. Where no record has that id, the deletion is refused and
/// `records` stays as it was.
pub fn delete_sync_record(records: &mut Vec<SyncRecord>, id: &str) -> (r: Result<(), String>)
    ensures
        !has_id(records_view(old(records)@), id@) ==> {
            &&& r matches Err(e) && e@ == missing_record_message()
            &&& final(records)@ == old(records)@
        },
        has_id(records_view(old(records)@), id@) ==> {
            &&& r is Ok
            &&& records_view(final(records)@) == without_id(records_view(old(records)@), id@)
        },
{
    let ghost old_view = records_view(records@);
    let ghost pred = |r: RecordView| r.id != id@;
    let n = records.len();
    let mut kept: Vec<SyncRecord> = Vec::new();
    let mut found = false;
    let mut i: usize = 0;
    assert(old_view.take(0) =~= Seq::<RecordView>::empty());
    reveal_with_fuel(Seq::filter, 1);
    while i < n
        invariant
            n == records@.len(),
            records@ == old(records)@,
            old_view == records_view(records@),
            i <= n,
            records_view(kept@) == old_view.take(i as int).filter(pred),
            found == exists|j: int| 0 <= j < i && old_view[j].id == id@,
            pred == (|r: RecordView| r.id != id@),
        decreases n - i,
    {
        assert(old_view.take(i + 1).drop_last() =~= old_view.take(i as int));
        reveal_with_fuel(Seq::filter, 1);
        assert(old_view[i as int] == records@[i as int]@);
        assert(old_view.take(i + 1).last() == old_view[i as int]);
        if str_eq(records[i].id.as_str(), id) {
            found = true;
            assert(old_view[i as int].id == id@);
            assert(!pred(old_view[i as int]));
            assert(old_view.take(i + 1).filter(pred) == old_view.take(i as int).filter(pred));
        } else {
            let ghost before = records_view(kept@);
            kept.push(records[i].duplicate());
            assert(records_view(kept@) =~= before.push(old_view[i as int]));
            assert(pred(old_view[i as int]));
            assert(old_view.take(i + 1).filter(pred) == old_view.take(i as int).filter(pred).push(old_view[i as int]));
        }
        i = i + 1;
    }
    assert(old_view.take(n as int) =~= old_view);
    if !found {
        return Err(String::from_str("记录不存在"));
    }
    *records = kept;
    Ok(())
}


/// A mode name that a record may carry is exactly a name that selects a
/// sync mode: every saved record can be run, and every mode a run accepts
/// can be saved.
pub proof fn lemma_saved_modes_are_runnable(name: Seq<char>)
    ensures
        is_known_mode(name) <==> SyncMode::named(name) is Some,
{
}

/// Deleting the id of a record just created, whose id no other record has,
/// gives back the records as they were before.
pub proof fn lemma_delete_undoes_create(rs: Seq<RecordView>, created: RecordView)
    requires
        !has_id(rs, created.id),
    ensures
        has_id(rs.push(created), created.id),
        without_id(rs.push(created), created.id) == rs,
{
    let pred = |r: RecordView| r.id != created.id;
    assert(rs.push(created)[rs.len() as int] == created);
    reveal_with_fuel(Seq::filter, 1);
    assert(rs.push(created).drop_last() =~= rs);
    lemma_filter_keeps_all(rs, pred);
}

/// A filter that every element passes keeps the sequence as it is.
proof fn lemma_filter_keeps_all(rs: Seq<RecordView>, pred: spec_fn(RecordView) -> bool)
    requires
        forall|i: int| 0 <= i < rs.len() ==> pred(rs[i]),
    ensures
        rs.filter(pred) == rs,
    decreases rs.len(),
{
    reveal_with_fuel(Seq::filter, 1);
    if rs.len() > 0 {
        lemma_filter_keeps_all(rs.drop_last(), pred);
        assert(rs.drop_last().push(rs.last()) =~= rs);
    }
}

/// After a deletion no record has the id, and every record with another id
/// is still there.
pub proof fn lemma_delete_removes_exactly(rs: Seq<RecordView>, id: Seq<char>)
    ensures
        !has_id(without_id(rs, id), id),
        forall|i: int| 0 <= i < rs.len() && rs[i].id != id ==> without_id(rs, id).contains(rs[i]),
{
    broadcast use vstd::seq_lib::group_filter_ensures;
    let kept = without_id(rs, id);
    assert forall|k: int| 0 <= k < kept.len() implies kept[k].id != id by {
        assert((|r: RecordView| r.id != id)(kept[k]));
    }
}

/// Editing a record changes neither how many records there are nor any
/// record's id.
pub proof fn lemma_edit_keeps_ids(
    rs: Seq<RecordView>,
    k: int,
    name: Seq<char>,
    from_path: Seq<char>,
    to_path: Seq<char>,
    ref_name: Option<Seq<char>>,
    sync_mode: Seq<char>,
)
    requires
        0 <= k < rs.len(),
    ensures
        ({
            let after = rs.update(k, edited(rs[k], name, from_path, to_path, ref_name, sync_mode));
            &&& after.len() == rs.len()
            &&& forall|i: int| 0 <= i < rs.len() ==> after[i].id == rs[i].id && after[i].created_at
                == rs[i].created_at
        }),
{
}

} // verus!

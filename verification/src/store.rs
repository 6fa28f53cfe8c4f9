//! Metadata store decision logic. The store is a directory of record files,
//! one per quarantined item, named `<trash_id>.meta`. Creation is
//! write-new-then-rename: the record is first written to `<trash_id>.meta.tmp`
//! and only renamed into place once durably synced, so the final name is
//! never seen half-written. Enumeration validates every record against the
//! quarantine area and heals the store: records that do not parse, whose
//! quarantined copy is gone, or whose copy sits on a different device than
//! the quarantine root are purged, never surfaced.

use vstd::prelude::*;
use vstd::string::StringExecFns;
use crate::types::FileMeta;

verus! {

/// The `.meta` file-name suffix.
pub open spec fn spec_meta_suffix() -> Seq<char> {
    seq!['.', 'm', 'e', 't', 'a']
}

/// The record file name for a storage key.
pub fn meta_file_name(trash_id: &str) -> (r: String)
    ensures
        r@ == trash_id@ + spec_meta_suffix(),
{
    proof {
        reveal_strlit(".meta");
        assert(".meta"@ =~= spec_meta_suffix());
    }
    String::from_str(trash_id).concat(".meta")
}

/// The temporary file name a record is written to before the rename.
pub fn meta_tmp_file_name(trash_id: &str) -> (r: String)
    ensures
        r@ == trash_id@ + spec_meta_suffix() + seq!['.', 't', 'm', 'p'],
{
    proof {
        reveal_strlit(".meta.tmp");
        assert(".meta.tmp"@ =~= spec_meta_suffix() + seq!['.', 't', 'm', 'p']);
    }
    String::from_str(trash_id).concat(".meta.tmp")
}

/// The temporary name never collides with the final name, so a crash
/// before the rename leaves the final name untouched.
pub proof fn lemma_tmp_name_differs(trash_id: Seq<char>)
    ensures
        trash_id + spec_meta_suffix() + seq!['.', 't', 'm', 'p'] != trash_id + spec_meta_suffix(),
{
    assert((trash_id + spec_meta_suffix() + seq!['.', 't', 'm', 'p']).len() != (trash_id
        + spec_meta_suffix()).len());
}

/// The quarantined copy's path: the item's key inside the quarantine
/// directory.
pub fn trash_path_for(trash_dir: &str, trash_id: &str) -> (r: String)
    ensures
        r@ == trash_dir@ + seq!['/'] + trash_id@,
{
    proof {
        reveal_strlit("/");
        assert("/"@ =~= seq!['/']);
    }
    String::from_str(trash_dir).concat("/").concat(trash_id)
}

/// Builds the record of one quarantined item from what was captured at
/// deletion time; created only after the physical relocation succeeded.
/// Every field is exactly what was captured, the deletion time rendered in
/// the store's fixed format.
pub fn make_record(
    original_path: String,
    trash_path: String,
    delete_ts: &crate::datetime::Timestamp,
    expire_days: i64,
    file_type: crate::types::FileType,
    permissions: Option<u32>,
    uid: Option<u32>,
    gid: Option<u32>,
    short_id: String,
    size_bytes: u64,
) -> (r: FileMeta)
    requires
        crate::datetime::ts_valid(*delete_ts),
    ensures
        r.original_path@ == original_path@,
        r.trash_path@ == trash_path@,
        r.delete_time@ == crate::datetime::spec_render_ts(*delete_ts),
        crate::datetime::spec_parse_ts(r.delete_time@) == Some(*delete_ts),
        r.expire_days == expire_days,
        r.file_type == file_type,
        r.permissions == permissions,
        r.uid == uid,
        r.gid == gid,
        r.short_id@ == short_id@,
        r.size_bytes == size_bytes,
{
    let delete_time = crate::datetime::render_timestamp(delete_ts);
    proof {
        crate::datetime::lemma_parse_of_render(*delete_ts);
    }
    FileMeta {
        original_path,
        trash_path,
        delete_time,
        expire_days,
        file_type,
        permissions,
        uid,
        gid,
        short_id,
        size_bytes,
    }
}

/// What a store scan sees of one record file: its key (the file name less
/// the `.meta` suffix), the parse of its contents, and the two physical
/// probes — whether the quarantined copy exists and whether it sits on the
/// same device as the quarantine root.
pub struct ScanEntry {
    pub trash_id: String,
    pub parsed: Option<FileMeta>,
    pub trash_exists: bool,
    pub same_device: bool,
}

/// Whether a scanned record is valid and is kept by enumeration.
pub open spec fn spec_keeps(e: ScanEntry) -> bool {
    e.parsed is Some && e.trash_exists && e.same_device
}

/// `m` is `p` with a missing short identifier backfilled from the key.
pub open spec fn healed_eq(m: FileMeta, p: FileMeta, trash_id: Seq<char>) -> bool {
    &&& m.original_path@ == p.original_path@
    &&& m.trash_path@ == p.trash_path@
    &&& m.delete_time@ == p.delete_time@
    &&& m.expire_days == p.expire_days
    &&& m.file_type == p.file_type
    &&& m.permissions == p.permissions
    &&& m.uid == p.uid
    &&& m.gid == p.gid
    &&& m.short_id@ == if p.short_id@.len() == 0 {
        trash_id
    } else {
        p.short_id@
    }
    &&& m.size_bytes == p.size_bytes
}

/// Validates one scanned record: kept exactly when it parsed and its
/// quarantined copy exists on the quarantine root's device; the kept record
/// is the parsed one, with an empty short identifier backfilled from the
/// key. Anything else is purged.
pub fn validate_entry(e: &ScanEntry) -> (r: Option<FileMeta>)
    ensures
        r is Some <==> spec_keeps(*e),
        r matches Some(m) ==> healed_eq(m, e.parsed->Some_0, e.trash_id@),
{
    match &e.parsed {
        None => None,
        Some(p) => {
            if !e.trash_exists || !e.same_device {
                return None;
            }
            let short_empty = p.short_id.as_str().unicode_len() == 0;
            let m = FileMeta {
                original_path: p.original_path.clone(),
                trash_path: p.trash_path.clone(),
                delete_time: p.delete_time.clone(),
                expire_days: p.expire_days,
                file_type: p.file_type,
                permissions: p.permissions,
                uid: p.uid,
                gid: p.gid,
                short_id: if short_empty {
                    e.trash_id.clone()
                } else {
                    p.short_id.clone()
                },
                size_bytes: p.size_bytes,
            };
            proof {
                assert(healed_eq(m, e.parsed->Some_0, e.trash_id@));
            }
            Some(m)
        },
    }
}

/// A kept pair is the healed image of the valid scanned entry `j`.
pub open spec fn kept_from(entries: Seq<ScanEntry>, p: (String, FileMeta), j: int) -> bool {
    &&& 0 <= j < entries.len()
    &&& spec_keeps(entries[j])
    &&& p.0@ == entries[j].trash_id@
    &&& healed_eq(p.1, entries[j].parsed->Some_0, entries[j].trash_id@)
}

/// A purged key names the invalid scanned entry `j`.
pub open spec fn purged_from(entries: Seq<ScanEntry>, id: String, j: int) -> bool {
    &&& 0 <= j < entries.len()
    &&& !spec_keeps(entries[j])
    &&& id@ == entries[j].trash_id@
}

/// Position `i` of the kept list carries the key `tid`.
pub open spec fn kept_has(kept: Seq<(String, FileMeta)>, i: int, tid: Seq<char>) -> bool {
    0 <= i < kept.len() && kept[i].0@ == tid
}

/// Position `i` of the purged list carries the key `tid`.
pub open spec fn purged_has(purged: Seq<String>, i: int, tid: Seq<char>) -> bool {
    0 <= i < purged.len() && purged[i]@ == tid
}

/// The kept pair is the healed image of some valid scanned entry.
pub open spec fn some_source_kept(entries: Seq<ScanEntry>, p: (String, FileMeta)) -> bool {
    exists|j: int| kept_from(entries, p, j)
}

/// The purged key names some invalid scanned entry.
pub open spec fn some_source_purged(entries: Seq<ScanEntry>, id: String) -> bool {
    exists|j: int| purged_from(entries, id, j)
}

/// The key appears somewhere in the kept list.
pub open spec fn kept_somewhere(kept: Seq<(String, FileMeta)>, tid: Seq<char>) -> bool {
    exists|i: int| kept_has(kept, i, tid)
}

/// The key appears somewhere in the purged list.
pub open spec fn purged_somewhere(purged: Seq<String>, tid: Seq<char>) -> bool {
    exists|i: int| purged_has(purged, i, tid)
}

/// Enumerates the store from a scan: returns the kept records, each under
/// its key, and the keys of the purged record files.
///
/// Every kept record comes from a scanned entry that parsed and whose
/// quarantined copy exists on the quarantine root's device — never from any
/// other — and every such entry is kept; the rest are exactly the purged
/// ones. Enumeration therefore never returns a record whose quarantined
/// copy is missing or sits on a different device.
pub fn heal_records(entries: &Vec<ScanEntry>) -> (r: (Vec<(String, FileMeta)>, Vec<String>))
    ensures
        r.0@.len() + r.1@.len() == entries@.len(),
        forall|i: int| 0 <= i < r.0@.len() ==> some_source_kept(entries@, #[trigger] r.0@[i]),
        forall|j: int|
            0 <= j < entries@.len() && #[trigger] spec_keeps(entries@[j]) ==> kept_somewhere(
                r.0@,
                entries@[j].trash_id@,
            ),
        forall|j: int|
            0 <= j < entries@.len() && !(#[trigger] spec_keeps(entries@[j])) ==> purged_somewhere(
                r.1@,
                entries@[j].trash_id@,
            ),
        forall|i: int| 0 <= i < r.1@.len() ==> some_source_purged(entries@, #[trigger] r.1@[i]),
{
    let mut kept: Vec<(String, FileMeta)> = Vec::new();
    let mut purged: Vec<String> = Vec::new();
    let ghost mut src_k: Seq<int> = Seq::empty();
    let ghost mut src_p: Seq<int> = Seq::empty();
    let ghost mut dst: Seq<int> = Seq::empty();
    let mut idx: usize = 0;
    while idx < entries.len()
        invariant
            idx <= entries@.len(),
            kept@.len() + purged@.len() == idx,
            src_k.len() == kept@.len(),
            src_p.len() == purged@.len(),
            dst.len() == idx,
            forall|i: int|
                0 <= i < kept@.len() ==> 0 <= #[trigger] src_k[i] < idx && spec_keeps(
                    entries@[src_k[i]],
                ) && kept@[i].0@ == entries@[src_k[i]].trash_id@ && healed_eq(
                    kept@[i].1,
                    entries@[src_k[i]].parsed->Some_0,
                    entries@[src_k[i]].trash_id@,
                ),
            forall|i: int|
                0 <= i < purged@.len() ==> 0 <= #[trigger] src_p[i] < idx && !spec_keeps(
                    entries@[src_p[i]],
                ) && purged@[i]@ == entries@[src_p[i]].trash_id@,
            forall|j: int|
                0 <= j < idx && spec_keeps(entries@[j]) ==> 0 <= #[trigger] dst[j] < kept@.len()
                    && kept@[dst[j]].0@ == entries@[j].trash_id@,
            forall|j: int|
                0 <= j < idx && !spec_keeps(entries@[j]) ==> 0 <= #[trigger] dst[j]
                    < purged@.len() && purged@[dst[j]]@ == entries@[j].trash_id@,
        decreases entries@.len() - idx,
    {
        let e = &entries[idx];
        match validate_entry(e) {
            Some(m) => {
                proof {
                    dst = dst.push(kept@.len() as int);
                    src_k = src_k.push(idx as int);
                }
                kept.push((e.trash_id.clone(), m));
            },
            None => {
                proof {
                    dst = dst.push(purged@.len() as int);
                    src_p = src_p.push(idx as int);
                }
                purged.push(e.trash_id.clone());
            },
        }
        idx = idx + 1;
    }
    proof {
        assert forall|i: int|
            0 <= i < kept@.len() implies some_source_kept(entries@, #[trigger] kept@[i]) by {
            assert(kept_from(entries@, kept@[i], src_k[i]));
        };
        assert forall|j: int|
            0 <= j < entries@.len() && #[trigger] spec_keeps(entries@[j]) implies kept_somewhere(
            kept@,
            entries@[j].trash_id@,
        ) by {
            assert(kept_has(kept@, dst[j], entries@[j].trash_id@));
        };
        assert forall|j: int|
            0 <= j < entries@.len() && !(#[trigger] spec_keeps(
            entries@[j],
        )) implies purged_somewhere(purged@, entries@[j].trash_id@) by {
            assert(purged_has(purged@, dst[j], entries@[j].trash_id@));
        };
        assert forall|i: int|
            0 <= i < purged@.len() implies some_source_purged(entries@, #[trigger] purged@[i]) by {
            assert(purged_from(entries@, purged@[i], src_p[i]));
        };
    }
    (kept, purged)
}

/// How a restore request for one identifier resolves against the kept
/// records: by short identifier first, then by raw storage key.
pub fn resolve_identifier(records: &Vec<(String, FileMeta)>, name: &str) -> (r: Option<usize>)
    ensures
        r is None ==> forall|j: int|
            0 <= j < records@.len() ==> (#[trigger] records@[j].1.short_id@ != name@
                && records@[j].0@ != name@),
        r matches Some(i) ==> i < records@.len() && (records@[i as int].1.short_id@ == name@ || (
        records@[i as int].0@ == name@ && forall|j: int|
            0 <= j < records@.len() ==> #[trigger] records@[j].1.short_id@ != name@)),
{
    let name_string = String::from_str(name);
    let mut i: usize = 0;
    while i < records.len()
        invariant
            i <= records@.len(),
            name_string@ == name@,
            forall|j: int| 0 <= j < i ==> #[trigger] records@[j].1.short_id@ != name@,
        decreases records@.len() - i,
    {
        if records[i].1.short_id.eq(&name_string) {
            return Some(i);
        }
        i = i + 1;
    }
    let mut k: usize = 0;
    while k < records.len()
        invariant
            k <= records@.len(),
            name_string@ == name@,
            forall|j: int| 0 <= j < records@.len() ==> #[trigger] records@[j].1.short_id@ != name@,
            forall|j: int| 0 <= j < k ==> #[trigger] records@[j].0@ != name@,
        decreases records@.len() - k,
    {
        if records[k].0.eq(&name_string) {
            return Some(k);
        }
        k = k + 1;
    }
    None
}

/// What a restore does for one identifier, decided before any mutation.
#[derive(Clone, Copy, Debug, PartialEq, Eq, Structural)]
pub enum RestoreStep {
    /// The identifier names no record: report it, touch nothing.
    NotFound,
    /// The record exists but its quarantined file is gone: report a missing
    /// trash file and purge the now-orphaned record.
    PurgeMissing,
    /// Move the quarantined copy to the target, reapply recorded
    /// permissions, then delete the record.
    Restore,
}

/// The restore decision for one identifier: unknown identifiers are
/// reported not found; a resolved record whose quarantined file is missing
/// reports a missing trash file and is purged as a side effect; otherwise
/// the item is restored.
pub fn restore_step(resolved: bool, trash_exists: bool) -> (r: RestoreStep)
    ensures
        r == RestoreStep::NotFound <==> !resolved,
        r == RestoreStep::PurgeMissing <==> resolved && !trash_exists,
        r == RestoreStep::Restore <==> resolved && trash_exists,
{
    if !resolved {
        RestoreStep::NotFound
    } else if !trash_exists {
        RestoreStep::PurgeMissing
    } else {
        RestoreStep::Restore
    }
}

/// The characters after the last `/`; the whole text when it has none.
pub open spec fn spec_file_name_of(s: Seq<char>) -> Seq<char>
    decreases s.len(),
{
    if s.len() == 0 {
        s
    } else if s[s.len() - 1] == '/' {
        Seq::empty()
    } else {
        spec_file_name_of(s.drop_last()) + seq![s[s.len() - 1]]
    }
}

/// Extracts the file-name component of a path.
pub fn file_name_of(path: &str) -> (r: String)
    ensures
        r@ == spec_file_name_of(path@),
{
    let len = path.unicode_len();
    let mut end = len;
    let mut r = String::new();
    while end > 0
        invariant
            len == path@.len(),
            end <= len,
            r@ =~= path@.subrange(end as int, len as int),
            forall|q: int| end <= q < len ==> path@[q] != '/',
        decreases end,
    {
        if path.get_char(end - 1) == '/' {
            proof {
                lemma_file_name_after_slash(path@, end - 1);
            }
            return r;
        }
        let ghost r_old = r@;
        end = end - 1;
        r = String::from_str(path.substring_char(end, end + 1)).concat(r.as_str());
        proof {
            assert(r@ =~= path@.subrange(end as int, len as int));
        }
    }
    proof {
        lemma_file_name_no_slash(path@);
    }
    r
}

proof fn lemma_file_name_after_slash(s: Seq<char>, p: int)
    requires
        0 <= p < s.len(),
        s[p] == '/',
        forall|q: int| p < q < s.len() ==> s[q] != '/',
    ensures
        spec_file_name_of(s) == s.subrange(p + 1, s.len() as int),
    decreases s.len(),
{
    if p == s.len() - 1 {
        assert(spec_file_name_of(s) =~= s.subrange(p + 1, s.len() as int));
    } else {
        lemma_file_name_after_slash(s.drop_last(), p);
        assert(s.drop_last().subrange(p + 1, s.len() - 1) =~= s.subrange(p + 1, s.len() - 1));
        assert(spec_file_name_of(s) =~= s.subrange(p + 1, s.len() as int));
    }
}

proof fn lemma_file_name_no_slash(s: Seq<char>)
    requires
        forall|q: int| 0 <= q < s.len() ==> s[q] != '/',
    ensures
        spec_file_name_of(s) == s,
    decreases s.len(),
{
    if s.len() > 0 {
        lemma_file_name_no_slash(s.drop_last());
        assert(spec_file_name_of(s) =~= s);
    }
}

/// Where a restore puts the item: the explicit target when one was given —
/// inside it when the target is a directory — and the recorded original
/// path otherwise.
pub open spec fn spec_restore_target(
    rec: FileMeta,
    target: Option<Seq<char>>,
    target_is_dir: bool,
) -> Seq<char> {
    match target {
        None => rec.original_path@,
        Some(t) => if target_is_dir {
            t + seq!['/'] + spec_file_name_of(rec.original_path@)
        } else {
            t
        },
    }
}

/// Computes the restore destination for a record.
pub fn restore_target(rec: &FileMeta, target: Option<&String>, target_is_dir: bool) -> (r: String)
    ensures
        r@ == spec_restore_target(
            *rec,
            match target {
                Some(t) => Some(t@),
                None => None,
            },
            target_is_dir,
        ),
{
    match target {
        None => rec.original_path.clone(),
        Some(t) => {
            if target_is_dir {
                proof {
                    reveal_strlit("/");
                    assert("/"@ =~= seq!['/']);
                }
                t.clone().concat("/").concat(file_name_of(rec.original_path.as_str()).as_str())
            } else {
                t.clone()
            }
        },
    }
}

/// A restore without an explicit target returns the item to the exact
/// original path its record captured at deletion time, and reapplies the
/// recorded permission bits; together with the record codec's round trip,
/// a quarantined item restores to where and what it was.
pub proof fn lemma_restore_returns_original(rec: FileMeta)
    ensures
        spec_restore_target(rec, None, false) == rec.original_path@,
        spec_restore_target(rec, None, true) == rec.original_path@,
{
}

} // verus!

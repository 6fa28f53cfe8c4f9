//! Retention policy: an item's expiry instant is its deletion time plus its
//! retention window. Listing partitions records into active (now at or
//! before expiry) and expired (now strictly past expiry); cleanup removes
//! the expired ones by default and everything on demand. A record whose
//! stored deletion time does not parse is corrupt and is purged, never
//! surfaced.

use vstd::prelude::*;
use vstd::string::StringExecFns;
use crate::datetime::{parse_timestamp, spec_parse_ts, spec_ts_seconds, ts_seconds, ts_valid,
    Timestamp};
use crate::strutil::{spec_dec, u64_to_string};
use crate::types::FileMeta;

verus! {

/// The expiry instant, in civil-epoch seconds: deletion time plus the
/// retention window in days.
pub open spec fn spec_expiry_seconds(delete_ts: Timestamp, expire_days: int) -> int {
    spec_ts_seconds(delete_ts) + expire_days * 86400
}

/// Whether `now` lies strictly past the expiry instant.
pub open spec fn spec_is_expired(delete_ts: Timestamp, expire_days: int, now: Timestamp) -> bool {
    spec_ts_seconds(now) > spec_expiry_seconds(delete_ts, expire_days)
}

/// Decides expiry: strictly past the expiry instant, boundary exclusive —
/// an item seen exactly at its expiry instant is still active.
pub fn is_expired(delete_ts: &Timestamp, expire_days: i64, now: &Timestamp) -> (b: bool)
    requires
        ts_valid(*delete_ts),
        ts_valid(*now),
    ensures
        b == spec_is_expired(*delete_ts, expire_days as int, *now),
{
    let ds = ts_seconds(delete_ts) as i128;
    let ns = ts_seconds(now) as i128;
    let expiry: i128 = ds + (expire_days as i128) * 86400;
    ns > expiry
}

/// What listing reports of one record: corrupt (unreadable deletion time),
/// active with seconds remaining, or expired with seconds elapsed.
#[derive(Clone, Copy, Debug, PartialEq, Eq, Structural)]
pub enum ItemStatus {
    Corrupt,
    Active { remaining_seconds: i128 },
    Expired { elapsed_seconds: i128 },
}

/// The status a record has against `now`.
pub open spec fn spec_item_status(meta: FileMeta, now: Timestamp) -> ItemStatus {
    match spec_parse_ts(meta.delete_time@) {
        None => ItemStatus::Corrupt,
        Some(ts) => {
            let expiry = spec_expiry_seconds(ts, meta.expire_days as int);
            let nows = spec_ts_seconds(now);
            if nows > expiry {
                ItemStatus::Expired { elapsed_seconds: (nows - expiry) as i128 }
            } else {
                ItemStatus::Active { remaining_seconds: (expiry - nows) as i128 }
            }
        },
    }
}

/// Classifies one record against `now`.
pub fn item_status(meta: &FileMeta, now: &Timestamp) -> (r: ItemStatus)
    requires
        ts_valid(*now),
    ensures
        r == spec_item_status(*meta, *now),
{
    match parse_timestamp(meta.delete_time.as_str()) {
        None => ItemStatus::Corrupt,
        Some(ts) => {
            let ds = ts_seconds(&ts) as i128;
            let ns = ts_seconds(now) as i128;
            let expiry: i128 = ds + (meta.expire_days as i128) * 86400;
            if ns > expiry {
                ItemStatus::Expired { elapsed_seconds: ns - expiry }
            } else {
                ItemStatus::Active { remaining_seconds: expiry - ns }
            }
        },
    }
}

/// Classifies every record against `now`, in order.
pub fn list_statuses(records: &Vec<FileMeta>, now: &Timestamp) -> (r: Vec<ItemStatus>)
    requires
        ts_valid(*now),
    ensures
        r@.len() == records@.len(),
        forall|i: int| 0 <= i < r@.len() ==> r@[i] == spec_item_status(records@[i], *now),
{
    let mut out: Vec<ItemStatus> = Vec::new();
    let mut i: usize = 0;
    while i < records.len()
        invariant
            ts_valid(*now),
            i <= records@.len(),
            out@.len() == i,
            forall|j: int| 0 <= j < i ==> out@[j] == spec_item_status(records@[j], *now),
        decreases records@.len() - i,
    {
        let st = item_status(&records[i], now);
        out.push(st);
        i = i + 1;
    }
    out
}

/// What cleanup does with one record.
#[derive(Clone, Copy, Debug, PartialEq, Eq, Structural)]
pub enum CleanDecision {
    /// Delete the quarantined copy and the record.
    Remove,
    /// Leave the item in quarantine.
    Keep,
    /// The stored deletion time is unreadable: purge the record.
    PurgeCorrupt,
}

/// The cleanup decision: everything when `all` is set; otherwise only
/// records strictly past expiry, and corrupt records are purged.
pub open spec fn spec_clean_decision(meta: FileMeta, now: Timestamp, all: bool) -> CleanDecision {
    if all {
        CleanDecision::Remove
    } else {
        match spec_parse_ts(meta.delete_time@) {
            None => CleanDecision::PurgeCorrupt,
            Some(ts) => {
                if spec_is_expired(ts, meta.expire_days as int, now) {
                    CleanDecision::Remove
                } else {
                    CleanDecision::Keep
                }
            },
        }
    }
}

/// Decides what cleanup does with one record.
pub fn clean_decision(meta: &FileMeta, now: &Timestamp, all: bool) -> (r: CleanDecision)
    requires
        ts_valid(*now),
    ensures
        r == spec_clean_decision(*meta, *now, all),
{
    if all {
        return CleanDecision::Remove;
    }
    match parse_timestamp(meta.delete_time.as_str()) {
        None => CleanDecision::PurgeCorrupt,
        Some(ts) => {
            if is_expired(&ts, meta.expire_days, now) {
                CleanDecision::Remove
            } else {
                CleanDecision::Keep
            }
        },
    }
}

/// Cleanup with `all` removes every record regardless of expiry; default
/// cleanup removes exactly the readable records whose deletion time plus
/// retention window lies strictly in the past, keeps the rest, and purges
/// the unreadable ones.
pub proof fn lemma_clean_policy(meta: FileMeta, now: Timestamp, all: bool)
    ensures
        all ==> spec_clean_decision(meta, now, all) == CleanDecision::Remove,
        !all && spec_parse_ts(meta.delete_time@) is None ==> spec_clean_decision(meta, now, all)
            == CleanDecision::PurgeCorrupt,
        (!all && spec_parse_ts(meta.delete_time@) matches Some(ts)) ==> (spec_clean_decision(
            meta,
            now,
            all,
        ) == CleanDecision::Remove <==> spec_ts_seconds(now) > spec_expiry_seconds(
            spec_parse_ts(meta.delete_time@)->Some_0,
            meta.expire_days as int,
        )),
{
}

/// The human-readable form of a duration given in seconds: whole days and
/// hours when at least a day long, hours and minutes when at least an hour,
/// minutes alone otherwise.
pub open spec fn spec_format_duration(secs: nat) -> Seq<char> {
    let days = secs / 86400;
    let hours = secs / 3600 % 24;
    let minutes = secs / 60 % 60;
    if days > 0 {
        spec_dec(days) + seq!['d', ' '] + spec_dec(hours) + seq!['h']
    } else if hours > 0 {
        spec_dec(hours) + seq!['h', ' '] + spec_dec(minutes) + seq!['m']
    } else {
        spec_dec(minutes) + seq!['m']
    }
}

/// Renders a duration for display.
pub fn format_duration(total_seconds: u64) -> (r: String)
    ensures
        r@ == spec_format_duration(total_seconds as nat),
{
    let days = total_seconds / 86400;
    let hours = total_seconds / 3600 % 24;
    let minutes = total_seconds / 60 % 60;
    proof {
        reveal_strlit("d ");
        reveal_strlit("h");
        reveal_strlit("h ");
        reveal_strlit("m");
        assert("d "@ =~= seq!['d', ' ']);
        assert("h"@ =~= seq!['h']);
        assert("h "@ =~= seq!['h', ' ']);
        assert("m"@ =~= seq!['m']);
    }
    if days > 0 {
        let r = u64_to_string(days).concat("d ").concat(u64_to_string(hours).as_str()).concat("h");
        proof {
            assert(r@ =~= spec_format_duration(total_seconds as nat));
        }
        r
    } else if hours > 0 {
        let r = u64_to_string(hours).concat("h ").concat(u64_to_string(minutes).as_str()).concat(
            "m",
        );
        proof {
            assert(r@ =~= spec_format_duration(total_seconds as nat));
        }
        r
    } else {
        let r = u64_to_string(minutes).concat("m");
        proof {
            assert(r@ =~= spec_format_duration(total_seconds as nat));
        }
        r
    }
}

} // verus!

//! Short-identifier allocation: a quarantined item gets a compact,
//! human-typeable identifier — a one-letter type tag followed by a
//! fixed-length prefix of a stable hash of its `trash_id`. A collision with
//! an identifier already in use is resolved by appending `_1`, `_2`, … until
//! the candidate is free; every appended suffix lengthens the candidate, so
//! the candidates are pairwise distinct and a free one is always reached.

use vstd::prelude::*;
use vstd::seq_lib::*;
use vstd::set_lib::lemma_len_subset;
use vstd::string::StringExecFns;
use crate::strutil::{spec_dec, u64_to_string};
use crate::types::{spec_type_tag, FileType};

verus! {

/// How many hash characters a short identifier takes after its type tag.
pub const SHORT_ID_LENGTH: usize = 6;

/// Names the lowercase hexadecimal rendering of the MD5 digest of a
/// string's bytes; it depends on the characters alone.
pub uninterp spec fn md5_hex_of(s: Seq<char>) -> Seq<char>;

/// Relies on md5::compute: a 16-byte digest that is a function of the input
/// bytes alone, rendered by its LowerHex impl as two lowercase hex digits
/// per byte — 32 characters in all.
#[verifier::external_body]
fn md5_hex(s: &str) -> (r: String)
    ensures
        r@ == md5_hex_of(s@),
        r@.len() == 32,
{
    format!("{:x}", md5::compute(s.as_bytes()))
}

/// The views of a list of identifiers.
pub open spec fn id_views(ids: Seq<String>) -> Seq<Seq<char>> {
    ids.map_values(|s: String| s@)
}

/// The collision-free starting candidate: type tag plus hash prefix.
pub open spec fn spec_base_candidate(trash_id: Seq<char>, ft: FileType) -> Seq<char> {
    spec_type_tag(ft) + md5_hex_of(trash_id).subrange(0, SHORT_ID_LENGTH as int)
}

/// The `k`-th candidate tried for a base: the base itself, then each
/// previous candidate with `_k` appended.
pub open spec fn candidate_at(base: Seq<char>, k: nat) -> Seq<char>
    decreases k,
{
    if k == 0 {
        base
    } else {
        candidate_at(base, (k - 1) as nat) + seq!['_'] + spec_dec(k)
    }
}

/// Every candidate strictly before the `k`-th is already in use.
pub open spec fn candidates_taken_below(base: Seq<char>, used: Seq<Seq<char>>, k: nat) -> bool {
    forall|j: nat| j < k ==> used.contains(#[trigger] candidate_at(base, j))
}

/// `id` is the first candidate for this item that is not in `used`.
pub open spec fn is_first_free_id(
    trash_id: Seq<char>,
    ft: FileType,
    used: Seq<Seq<char>>,
    id: Seq<char>,
) -> bool {
    &&& !used.contains(id)
    &&& exists|k: nat|
        id == candidate_at(spec_base_candidate(trash_id, ft), k) && #[trigger] candidates_taken_below(
            spec_base_candidate(trash_id, ft),
            used,
            k,
        )
}

proof fn lemma_dec_len_at_least_one(n: nat)
    ensures
        spec_dec(n).len() >= 1,
    decreases n,
{
    if n >= 10 {
        lemma_dec_len_at_least_one(n / 10);
    }
}

proof fn lemma_candidate_len_increases(base: Seq<char>, j: nat, k: nat)
    requires
        j < k,
    ensures
        candidate_at(base, j).len() < candidate_at(base, k).len(),
    decreases k,
{
    lemma_dec_len_at_least_one(k);
    if j < k - 1 {
        lemma_candidate_len_increases(base, j, (k - 1) as nat);
    }
}

/// Among the first `n + 1` candidates, at least one is not among `n` used
/// identifiers: the candidates are pairwise distinct, being of strictly
/// growing length, so the used list is too short to hold them all.
proof fn lemma_some_candidate_free(base: Seq<char>, used: Seq<Seq<char>>, n: nat)
    requires
        used.len() == n,
    ensures
        exists|j: nat| j <= n && !used.contains(#[trigger] candidate_at(base, j)),
{
    broadcast use vstd::seq_lib::seq_to_set_is_finite;

    if forall|j: nat| j <= n ==> used.contains(#[trigger] candidate_at(base, j)) {
        let cs = Seq::new(n + 1, |i: int| candidate_at(base, i as nat));
        assert forall|i: int, j: int|
            0 <= i < cs.len() && 0 <= j < cs.len() && i != j implies cs[i] != cs[j] by {
            if i < j {
                lemma_candidate_len_increases(base, i as nat, j as nat);
            } else {
                lemma_candidate_len_increases(base, j as nat, i as nat);
            }
        };
        cs.unique_seq_to_set();
        assert forall|x: Seq<char>| cs.to_set().contains(x) implies used.to_set().contains(x) by {
            let i = choose|i: int| 0 <= i < cs.len() && cs[i] == x;
            assert(used.contains(candidate_at(base, i as nat)));
        };
        used.lemma_cardinality_of_set();
        lemma_len_subset(cs.to_set(), used.to_set());
        assert(false);
    }
}

/// Whether one of the identifiers has the same characters as `s`.
pub fn contains_id(ids: &Vec<String>, s: &String) -> (b: bool)
    ensures
        b == id_views(ids@).contains(s@),
{
    let mut i: usize = 0;
    while i < ids.len()
        invariant
            i <= ids@.len(),
            forall|j: int| 0 <= j < i ==> id_views(ids@)[j] != s@,
        decreases ids@.len() - i,
    {
        if ids[i].eq(s) {
            assert(id_views(ids@)[i as int] == s@);
            return true;
        }
        i = i + 1;
    }
    false
}

/// Builds the internal storage key for a quarantined item: the original
/// file name and a timestamp-derived salt, joined by an underscore.
pub fn make_trash_id(name: &str, timestamp_nanos: u128) -> (r: String)
    ensures
        r@ == name@ + seq!['_'] + spec_dec(timestamp_nanos as nat),
{
    proof {
        reveal_strlit("_");
        assert("_"@ =~= seq!['_']);
    }
    String::from_str(name).concat("_").concat(crate::strutil::u128_to_string(timestamp_nanos).as_str())
}

/// Derives the short identifier for one item: the first free candidate —
/// type tag plus six hash characters, then numeric suffixes on collision.
///
/// The result is never one of `existing`, and is determined by the
/// `trash_id`, the kind, and which earlier candidates `existing` holds.
pub fn generate_short_id(trash_id: &str, file_type: FileType, existing: &Vec<String>) -> (r:
    String)
    ensures
        is_first_free_id(trash_id@, file_type, id_views(existing@), r@),
{
    let hex = md5_hex(trash_id);
    let prefix = hex.as_str().substring_char(0, SHORT_ID_LENGTH);
    let mut candidate: String = String::from_str(file_type.tag()).concat(prefix);
    let ghost base = spec_base_candidate(trash_id@, file_type);
    let ghost used = id_views(existing@);
    proof {
        assert(candidate@ == candidate_at(base, 0));
    }
    let n = existing.len();
    let mut k: usize = 0;
    while contains_id(existing, &candidate)
        invariant
            n == existing@.len(),
            used == id_views(existing@),
            base == spec_base_candidate(trash_id@, file_type),
            k <= n,
            candidate@ == candidate_at(base, k as nat),
            candidates_taken_below(base, used, k as nat),
        decreases n - k,
    {
        proof {
            assert(used.contains(candidate_at(base, k as nat)));
            assert(candidates_taken_below(base, used, (k + 1) as nat));
            if k == n {
                lemma_some_candidate_free(base, used, n as nat);
                let j = choose|j: nat| j <= n && !used.contains(#[trigger] candidate_at(base, j));
                assert(used.contains(candidate_at(base, j)));
                assert(false);
            }
        }
        k = k + 1;
        proof {
            reveal_strlit("_");
            assert("_"@ =~= seq!['_']);
        }
        candidate = candidate.concat("_").concat(u64_to_string(k as u64).as_str());
        assert(candidate@ == candidate_at(base, k as nat));
    }
    proof {
        assert(!used.contains(candidate@));
        assert(candidate@ == candidate_at(base, k as nat) && candidates_taken_below(
            base,
            used,
            k as nat,
        ));
    }
    candidate
}

/// Allocates short identifiers for a whole batch quarantined in one run.
///
/// Each item's identifier is the first free candidate against everything in
/// use at that point: the pre-existing identifiers plus those allocated
/// earlier in the batch. So the `n` results are pairwise distinct — even
/// when hash prefixes collide — and none repeats a pre-existing identifier.
pub fn allocate_batch_ids(items: &Vec<(String, FileType)>, existing: &Vec<String>) -> (r: Vec<
    String,
>)
    ensures
        r@.len() == items@.len(),
        forall|i: int|
            0 <= i < r@.len() ==> is_first_free_id(
                items@[i].0@,
                items@[i].1,
                id_views(existing@ + r@.subrange(0, i)),
                #[trigger] r@[i]@,
            ),
        forall|i: int| 0 <= i < r@.len() ==> !id_views(existing@).contains(#[trigger] r@[i]@),
        forall|i: int, j: int| 0 <= i < j < r@.len() ==> #[trigger] r@[i]@ != #[trigger] r@[j]@,
{
    let mut used: Vec<String> = Vec::new();
    let mut idx: usize = 0;
    while idx < existing.len()
        invariant
            idx <= existing@.len(),
            used@ =~= existing@.subrange(0, idx as int),
        decreases existing@.len() - idx,
    {
        used.push(existing[idx].clone());
        idx = idx + 1;
    }
    proof {
        assert(used@ =~= existing@);
    }
    let mut out: Vec<String> = Vec::new();
    let mut i: usize = 0;
    while i < items.len()
        invariant
            i <= items@.len(),
            out@.len() == i,
            used@ =~= existing@ + out@,
            forall|p: int|
                0 <= p < i ==> is_first_free_id(
                    items@[p].0@,
                    items@[p].1,
                    id_views(existing@ + out@.subrange(0, p)),
                    #[trigger] out@[p]@,
                ),
        decreases items@.len() - i,
    {
        let id = generate_short_id(items[i].0.as_str(), items[i].1, &used);
        let ghost out_old = out@;
        let ghost used_old = used@;
        used.push(id.clone());
        out.push(id);
        i = i + 1;
        proof {
            assert(out@.subrange(0, i - 1) =~= out_old);
            assert(used_old =~= existing@ + out_old);
            assert(used@ =~= existing@ + out@);
            assert forall|p: int|
                0 <= p < i implies is_first_free_id(
                items@[p].0@,
                items@[p].1,
                id_views(existing@ + out@.subrange(0, p)),
                #[trigger] out@[p]@,
            ) by {
                if p < i - 1 {
                    assert(out@.subrange(0, p) =~= out_old.subrange(0, p));
                    assert(out@[p] == out_old[p]);
                } else {
                    assert(is_first_free_id(
                        items@[p].0@,
                        items@[p].1,
                        id_views(used_old),
                        out@[p]@,
                    ));
                }
            };
        }
    }
    proof {
        lemma_batch_ids_distinct(items@, existing@, out@);
    }
    out
}

proof fn lemma_batch_ids_distinct(items: Seq<(String, FileType)>, existing: Seq<String>, out: Seq<
    String,
>)
    requires
        out.len() == items.len(),
        forall|p: int|
            0 <= p < out.len() ==> is_first_free_id(
                items[p].0@,
                items[p].1,
                id_views(existing + out.subrange(0, p)),
                #[trigger] out[p]@,
            ),
    ensures
        forall|i: int| 0 <= i < out.len() ==> !id_views(existing).contains(#[trigger] out[i]@),
        forall|i: int, j: int| 0 <= i < j < out.len() ==> #[trigger] out[i]@ != #[trigger] out[j]@,
{
    assert forall|i: int| 0 <= i < out.len() implies !id_views(existing).contains(
        #[trigger] out[i]@,
    ) by {
        let full = id_views(existing + out.subrange(0, i));
        if id_views(existing).contains(out[i]@) {
            let w = choose|w: int| 0 <= w < existing.len() && id_views(existing)[w] == out[i]@;
            assert(full[w] == out[i]@);
        }
    };
    assert forall|i: int, j: int| 0 <= i < j < out.len() implies #[trigger] out[i]@
        != #[trigger] out[j]@ by {
        let full = id_views(existing + out.subrange(0, j));
        assert(full[existing.len() + i] == out[i]@);
        assert(!full.contains(out[j]@));
    };
}

} // verus!

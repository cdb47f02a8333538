//! The deduplication / merge engine: merging a candidate entry into an entry
//! set keeps exactly one entry per (namespace, service name) key, the one with
//! the greatest timestamp, and the incoming entry always wins its own key.

use vstd::prelude::*;
use vstd::pervasive::VecAdditionalExecFns;
use crate::entry::{ApiDocEntry, EntryModel, entry_key, models};
use crate::text::str_eq;

verus! {

/// Whether some entry of `s` carries the key `k`.
pub open spec fn has_key(s: Seq<EntryModel>, k: (Seq<char>, Seq<char>)) -> bool {
    exists|i: int| 0 <= i < s.len() && entry_key(s[i]) == k
}

/// An index of an entry of `s` carrying the key `k`; the index when keys are
/// distinct.
pub open spec fn idx_of_key(s: Seq<EntryModel>, k: (Seq<char>, Seq<char>)) -> int {
    choose|i: int| 0 <= i < s.len() && entry_key(s[i]) == k
}

/// The entry of `s` carrying the key `k`.
pub open spec fn entry_at(s: Seq<EntryModel>, k: (Seq<char>, Seq<char>)) -> EntryModel {
    s[idx_of_key(s, k)]
}

/// No two entries of `s` share a key.
pub open spec fn distinct_keys(s: Seq<EntryModel>) -> bool {
    forall|i: int, j: int| 0 <= i < j < s.len() ==> entry_key(s[i]) != entry_key(s[j])
}

/// Unconditional insert-or-overwrite of `e` into `s` at its own key.
pub open spec fn upsert(s: Seq<EntryModel>, e: EntryModel) -> Seq<EntryModel> {
    if has_key(s, entry_key(e)) {
        s.update(idx_of_key(s, entry_key(e)), e)
    } else {
        s.push(e)
    }
}

/// One deduplication step: `e` joins `acc`, replacing the entry of its key
/// only when at least as recent (so of two equally recent entries the
/// later-seen one survives).
pub open spec fn dedup_insert(acc: Seq<EntryModel>, e: EntryModel) -> Seq<EntryModel> {
    if !has_key(acc, entry_key(e)) {
        acc.push(e)
    } else {
        let i = idx_of_key(acc, entry_key(e));
        if e.last_updated >= acc[i].last_updated {
            acc.update(i, e)
        } else {
            acc
        }
    }
}

/// Deduplication of an entry set: per key the greatest timestamp survives.
pub open spec fn dedup(s: Seq<EntryModel>) -> Seq<EntryModel>
    decreases s.len(),
{
    if s.len() == 0 {
        Seq::empty()
    } else {
        dedup_insert(dedup(s.drop_last()), s.last())
    }
}

/// The merge of a candidate entry into an entry set: the set is deduplicated
/// and the candidate overwrites its own key unconditionally, being the
/// freshest at call time.
pub open spec fn spec_merge(s: Seq<EntryModel>, e: EntryModel) -> Seq<EntryModel> {
    upsert(dedup(s), e)
}

/// What remains of the first `i` entries of `s` after removing the key `k`.
pub open spec fn removed_prefix(s: Seq<EntryModel>, k: (Seq<char>, Seq<char>), i: int) -> Seq<
    EntryModel,
>
    decreases i,
{
    if i <= 0 {
        Seq::empty()
    } else if entry_key(s[i - 1]) == k {
        removed_prefix(s, k, i - 1)
    } else {
        removed_prefix(s, k, i - 1).push(s[i - 1])
    }
}

/// Removal of a key from an entry set; a no-op when the key is absent.
pub open spec fn spec_remove(s: Seq<EntryModel>, k: (Seq<char>, Seq<char>)) -> Seq<EntryModel> {
    removed_prefix(s, k, s.len() as int)
}

proof fn lemma_idx_of_key(s: Seq<EntryModel>, k: (Seq<char>, Seq<char>))
    requires
        has_key(s, k),
    ensures
        0 <= idx_of_key(s, k) < s.len(),
        entry_key(s[idx_of_key(s, k)]) == k,
{
    let i = choose|i: int| 0 <= i < s.len() && entry_key(s[i]) == k;
    assert(0 <= i < s.len() && entry_key(s[i]) == k);
}

proof fn lemma_idx_of_key_unique(s: Seq<EntryModel>, k: (Seq<char>, Seq<char>), j: int)
    requires
        distinct_keys(s),
        0 <= j < s.len(),
        entry_key(s[j]) == k,
    ensures
        idx_of_key(s, k) == j,
{
    lemma_idx_of_key(s, k);
}

/// The index of the first entry of `v` with the given key, when present.
pub fn find_entry_idx(v: &Vec<ApiDocEntry>, namespace: &str, service_name: &str) -> (r: Option<
    usize,
>)
    ensures
        match r {
            Some(j) => j < v@.len() && entry_key(v@[j as int]@) == (namespace@, service_name@),
            None => !has_key(models(v@), (namespace@, service_name@)),
        },
{
    let mut i: usize = 0;
    while i < v.len()
        invariant
            i <= v@.len(),
            forall|t: int| 0 <= t < i ==> entry_key(v@[t]@) != (namespace@, service_name@),
        decreases v@.len() - i,
    {
        if str_eq(v[i].namespace.as_str(), namespace) && str_eq(
            v[i].service_name.as_str(),
            service_name,
        ) {
            return Some(i);
        }
        i = i + 1;
    }
    None
}

/// Merges `incoming` into `existing`: deduplicates the read set by key,
/// keeping per key the greatest timestamp, then inserts or overwrites the
/// incoming entry at its own key.
pub fn merge(existing: &Vec<ApiDocEntry>, incoming: ApiDocEntry) -> (r: Vec<ApiDocEntry>)
    ensures
        models(r@) == spec_merge(models(existing@), incoming@),
{
    let ghost ms = models(existing@);
    let mut out: Vec<ApiDocEntry> = Vec::new();
    let mut i: usize = 0;
    proof {
        assert(ms.subrange(0, 0) =~= Seq::<EntryModel>::empty());
    }
    while i < existing.len()
        invariant
            i <= existing@.len(),
            ms == models(existing@),
            models(out@) == dedup(ms.subrange(0, i as int)),
        decreases existing@.len() - i,
    {
        proof {
            lemma_dedup_distinct(ms.subrange(0, i as int));
        }
        let e = existing[i].clone();
        let ghost old_out = models(out@);
        match find_entry_idx(&out, e.namespace.as_str(), e.service_name.as_str()) {
            Some(j) => {
                proof {
                    lemma_idx_of_key_unique(old_out, entry_key(e@), j as int);
                }
                if e.last_updated >= out[j].last_updated {
                    out.set(j, e);
                    proof {
                        assert(models(out@) =~= old_out.update(j as int, existing@[i as int]@));
                    }
                }
            },
            None => {
                out.push(e);
                proof {
                    assert(models(out@) =~= old_out.push(existing@[i as int]@));
                }
            },
        }
        proof {
            let pre = ms.subrange(0, i as int);
            let ext = ms.subrange(0, i + 1);
            assert(ext.drop_last() =~= pre);
            assert(ext.last() == existing@[i as int]@);
            assert(models(out@) == dedup_insert(dedup(pre), existing@[i as int]@));
            assert(models(out@) == dedup(ext));
        }
        i = i + 1;
    }
    proof {
        assert(ms.subrange(0, ms.len() as int) =~= ms);
        lemma_dedup_distinct(ms);
    }
    let ghost ded = dedup(ms);
    let ghost inc = incoming@;
    match find_entry_idx(&out, incoming.namespace.as_str(), incoming.service_name.as_str()) {
        Some(j) => {
            proof {
                assert(entry_key(ded[j as int]) == entry_key(inc));
                assert(has_key(ded, entry_key(inc)));
                lemma_idx_of_key_unique(ded, entry_key(inc), j as int);
            }
            out.set(j, incoming);
            proof {
                assert(models(out@) =~= ded.update(j as int, inc));
                assert(models(out@) == upsert(ded, inc));
            }
        },
        None => {
            out.push(incoming);
            proof {
                assert(!has_key(ded, entry_key(inc)));
                assert(models(out@) =~= ded.push(inc));
                assert(models(out@) == upsert(ded, inc));
            }
        },
    }
    out
}

/// Removes every entry keyed (namespace, service name) from the entry set;
/// the relative order of the others is kept.
pub fn remove(existing: &Vec<ApiDocEntry>, namespace: &str, service_name: &str) -> (r: Vec<
    ApiDocEntry,
>)
    ensures
        models(r@) == spec_remove(models(existing@), (namespace@, service_name@)),
{
    let ghost ms = models(existing@);
    let ghost k = (namespace@, service_name@);
    let mut out: Vec<ApiDocEntry> = Vec::new();
    let mut i: usize = 0;
    while i < existing.len()
        invariant
            i <= existing@.len(),
            ms == models(existing@),
            k == (namespace@, service_name@),
            models(out@) == removed_prefix(ms, k, i as int),
        decreases existing@.len() - i,
    {
        let e = existing[i].clone();
        let ghost old_out = models(out@);
        let keep = !(str_eq(e.namespace.as_str(), namespace) && str_eq(
            e.service_name.as_str(),
            service_name,
        ));
        if keep {
            out.push(e);
            proof {
                assert(models(out@) =~= old_out.push(existing@[i as int]@));
            }
        }
        i = i + 1;
    }
    out
}

/// Keys of the deduplicated set are distinct.
proof fn lemma_dedup_insert_distinct(acc: Seq<EntryModel>, e: EntryModel)
    requires
        distinct_keys(acc),
    ensures
        distinct_keys(dedup_insert(acc, e)),
        forall|k: (Seq<char>, Seq<char>)|
            has_key(dedup_insert(acc, e), k) <==> (has_key(acc, k) || k == entry_key(e)),
    decreases acc.len(),
{
    let r = dedup_insert(acc, e);
    if !has_key(acc, entry_key(e)) {
        assert forall|k: (Seq<char>, Seq<char>)|
            has_key(r, k) <==> (has_key(acc, k) || k == entry_key(e)) by {
            if has_key(acc, k) {
                let i = choose|i: int| 0 <= i < acc.len() && entry_key(acc[i]) == k;
                assert(entry_key(r[i]) == k);
            }
            if k == entry_key(e) {
                assert(entry_key(r[acc.len() as int]) == k);
            }
            if has_key(r, k) {
                let i = choose|i: int| 0 <= i < r.len() && entry_key(r[i]) == k;
                if i < acc.len() {
                    assert(entry_key(acc[i]) == k);
                }
            }
        }
    } else {
        lemma_idx_of_key(acc, entry_key(e));
        let i = idx_of_key(acc, entry_key(e));
        if e.last_updated >= acc[i].last_updated {
            assert forall|k: (Seq<char>, Seq<char>)|
                has_key(r, k) <==> (has_key(acc, k) || k == entry_key(e)) by {
                if has_key(acc, k) {
                    let t = choose|t: int| 0 <= t < acc.len() && entry_key(acc[t]) == k;
                    if t == i {
                        assert(entry_key(r[i]) == k);
                    } else {
                        assert(entry_key(r[t]) == k);
                    }
                }
                if k == entry_key(e) {
                    assert(entry_key(r[i]) == k);
                }
                if has_key(r, k) {
                    let t = choose|t: int| 0 <= t < r.len() && entry_key(r[t]) == k;
                    if t == i {
                        assert(k == entry_key(e));
                    } else {
                        assert(entry_key(acc[t]) == k);
                    }
                }
            }
        }
    }
}

/// Upserting into a set with distinct keys keeps them distinct, adds exactly
/// the upserted key, places the new entry at its key, and leaves every other
/// key's entry unchanged.
proof fn lemma_upsert_distinct(s: Seq<EntryModel>, e: EntryModel)
    requires
        distinct_keys(s),
    ensures
        distinct_keys(upsert(s, e)),
        forall|k: (Seq<char>, Seq<char>)|
            has_key(upsert(s, e), k) <==> (has_key(s, k) || k == entry_key(e)),
        has_key(upsert(s, e), entry_key(e)),
        entry_at(upsert(s, e), entry_key(e)) == e,
        forall|k: (Seq<char>, Seq<char>)|
            k != entry_key(e) && has_key(s, k) ==> #[trigger] entry_at(upsert(s, e), k)
                == entry_at(s, k),
{
    let r = upsert(s, e);
    if has_key(s, entry_key(e)) {
        lemma_idx_of_key(s, entry_key(e));
        let i = idx_of_key(s, entry_key(e));
        assert forall|k: (Seq<char>, Seq<char>)|
            has_key(r, k) <==> (has_key(s, k) || k == entry_key(e)) by {
            if has_key(s, k) {
                let t = choose|t: int| 0 <= t < s.len() && entry_key(s[t]) == k;
                if t == i {
                    assert(entry_key(r[i]) == k);
                } else {
                    assert(entry_key(r[t]) == k);
                }
            }
            if k == entry_key(e) {
                assert(entry_key(r[i]) == k);
            }
            if has_key(r, k) {
                let t = choose|t: int| 0 <= t < r.len() && entry_key(r[t]) == k;
                if t != i {
                    assert(entry_key(s[t]) == k);
                }
            }
        }
        assert(entry_key(r[i]) == entry_key(e));
        lemma_idx_of_key_unique(r, entry_key(e), i);
        assert forall|k: (Seq<char>, Seq<char>)|
            k != entry_key(e) && has_key(s, k) implies #[trigger] entry_at(r, k) == entry_at(
            s,
            k,
        ) by {
            lemma_idx_of_key(s, k);
            let t = idx_of_key(s, k);
            assert(t != i);
            assert(entry_key(r[t]) == k);
            lemma_idx_of_key_unique(r, k, t);
        }
    } else {
        let n = s.len() as int;
        assert forall|k: (Seq<char>, Seq<char>)|
            has_key(r, k) <==> (has_key(s, k) || k == entry_key(e)) by {
            if has_key(s, k) {
                let t = choose|t: int| 0 <= t < s.len() && entry_key(s[t]) == k;
                assert(entry_key(r[t]) == k);
            }
            if k == entry_key(e) {
                assert(entry_key(r[n]) == k);
            }
            if has_key(r, k) {
                let t = choose|t: int| 0 <= t < r.len() && entry_key(r[t]) == k;
                if t < n {
                    assert(entry_key(s[t]) == k);
                }
            }
        }
        assert(entry_key(r[n]) == entry_key(e));
        lemma_idx_of_key_unique(r, entry_key(e), n);
        assert forall|k: (Seq<char>, Seq<char>)|
            k != entry_key(e) && has_key(s, k) implies #[trigger] entry_at(r, k) == entry_at(
            s,
            k,
        ) by {
            lemma_idx_of_key(s, k);
            let t = idx_of_key(s, k);
            assert(entry_key(r[t]) == k);
            lemma_idx_of_key_unique(r, k, t);
        }
    }
}

/// Deduplication yields distinct keys, exactly the keys of the input.
pub proof fn lemma_dedup_distinct(s: Seq<EntryModel>)
    ensures
        distinct_keys(dedup(s)),
        forall|k: (Seq<char>, Seq<char>)| has_key(dedup(s), k) <==> has_key(s, k),
    decreases s.len(),
{
    if s.len() == 0 {
    } else {
        let pre = s.drop_last();
        lemma_dedup_distinct(pre);
        lemma_dedup_insert_distinct(dedup(pre), s.last());
        assert forall|k: (Seq<char>, Seq<char>)| has_key(dedup(s), k) <==> has_key(s, k) by {
            if has_key(s, k) {
                let i = choose|i: int| 0 <= i < s.len() && entry_key(s[i]) == k;
                if i < s.len() - 1 {
                    assert(entry_key(pre[i]) == k);
                    assert(has_key(pre, k));
                } else {
                    assert(k == entry_key(s.last()));
                }
            }
            if has_key(pre, k) {
                let i = choose|i: int| 0 <= i < pre.len() && entry_key(pre[i]) == k;
                assert(entry_key(s[i]) == k);
            }
            if has_key(s, k) {
            } else {
                assert(!has_key(pre, k));
                assert(entry_key(s.last()) != k) by {
                    assert(entry_key(s[s.len() - 1]) == entry_key(s.last()));
                }
            }
        }
    }
}

/// The survivor of a key after deduplication is one of that key's own
/// entries and carries the group's greatest timestamp.
proof fn lemma_dedup_group(s: Seq<EntryModel>, k: (Seq<char>, Seq<char>))
    requires
        has_key(s, k),
    ensures
        has_key(dedup(s), k),
        entry_key(entry_at(dedup(s), k)) == k,
        exists|j: int| 0 <= j < s.len() && s[j] == entry_at(dedup(s), k) && entry_key(s[j]) == k,
        forall|j: int|
            0 <= j < s.len() && entry_key(s[j]) == k ==> s[j].last_updated <= entry_at(
                dedup(s),
                k,
            ).last_updated,
    decreases s.len(),
{
    let pre = s.drop_last();
    let e = s.last();
    let d = dedup(pre);
    let r = dedup(s);
    lemma_dedup_distinct(pre);
    lemma_dedup_insert_distinct(d, e);
    assert(r == dedup_insert(d, e));
    if entry_key(e) != k {
        // the witness of k lies before the last element
        let w = choose|i: int| 0 <= i < s.len() && entry_key(s[i]) == k;
        assert(w < s.len() - 1);
        assert(pre[w] == s[w]);
        assert(has_key(pre, k));
        lemma_dedup_group(pre, k);
        let t = idx_of_key(d, k);
        lemma_idx_of_key(d, k);
        // the insert of e never touches k's slot
        if !has_key(d, entry_key(e)) {
            assert(r[t] == d[t]);
            lemma_idx_of_key_unique(r, k, t);
        } else {
            lemma_idx_of_key(d, entry_key(e));
            let u = idx_of_key(d, entry_key(e));
            assert(u != t);
            if e.last_updated >= d[u].last_updated {
                assert(r[t] == d[t]);
                lemma_idx_of_key_unique(r, k, t);
            } else {
                assert(r == d);
            }
        }
        assert(entry_at(r, k) == entry_at(d, k));
        let x = entry_at(d, k);
        let j0 = choose|j: int| 0 <= j < pre.len() && pre[j] == x && entry_key(pre[j]) == k;
        assert(s[j0] == x && entry_key(s[j0]) == k);
        assert forall|j: int|
            0 <= j < s.len() && entry_key(s[j]) == k implies s[j].last_updated
            <= entry_at(r, k).last_updated by {
            assert(j < s.len() - 1);
            assert(pre[j] == s[j]);
        }
    } else {
        if !has_key(pre, k) {
            assert(!has_key(d, k)) by {
                lemma_dedup_distinct(pre);
            }
            let n = d.len() as int;
            assert(r == d.push(e));
            assert(entry_key(r[n]) == k);
            lemma_idx_of_key_unique(r, k, n);
            assert(entry_at(r, k) == e);
            assert(s[s.len() - 1] == e && entry_key(s[s.len() - 1]) == k);
            assert forall|j: int|
                0 <= j < s.len() && entry_key(s[j]) == k implies s[j].last_updated
                <= entry_at(r, k).last_updated by {
                if j < s.len() - 1 {
                    assert(entry_key(pre[j]) == k);
                    assert(has_key(pre, k));
                    assert(false);
                }
            }
        } else {
            lemma_dedup_group(pre, k);
            lemma_idx_of_key(d, k);
            let t = idx_of_key(d, k);
            let x = entry_at(d, k);
            if e.last_updated >= d[t].last_updated {
                assert(r == d.update(t, e));
                assert(entry_key(r[t]) == k);
                lemma_idx_of_key_unique(r, k, t);
                assert(entry_at(r, k) == e);
                assert(s[s.len() - 1] == e && entry_key(s[s.len() - 1]) == k);
                assert forall|j: int|
                    0 <= j < s.len() && entry_key(s[j]) == k implies s[j].last_updated
                    <= entry_at(r, k).last_updated by {
                    if j < s.len() - 1 {
                        assert(pre[j] == s[j]);
                    }
                }
            } else {
                assert(r == d);
                let j0 = choose|j: int|
                    0 <= j < pre.len() && pre[j] == x && entry_key(pre[j]) == k;
                assert(s[j0] == x && entry_key(s[j0]) == k);
                assert forall|j: int|
                    0 <= j < s.len() && entry_key(s[j]) == k implies s[j].last_updated
                    <= entry_at(r, k).last_updated by {
                    if j < s.len() - 1 {
                        assert(pre[j] == s[j]);
                    }
                }
            }
        }
    }
}

/// A set whose keys are already distinct deduplicates to itself.
proof fn lemma_dedup_of_distinct(s: Seq<EntryModel>)
    requires
        distinct_keys(s),
    ensures
        dedup(s) == s,
    decreases s.len(),
{
    if s.len() == 0 {
        assert(dedup(s) =~= s);
    } else {
        let pre = s.drop_last();
        lemma_dedup_of_distinct(pre);
        assert(!has_key(pre, entry_key(s.last()))) by {
            if has_key(pre, entry_key(s.last())) {
                let i = choose|i: int|
                    0 <= i < pre.len() && entry_key(pre[i]) == entry_key(s.last());
                assert(entry_key(s[i]) == entry_key(s[s.len() - 1]));
                assert(false);
            }
        }
        assert(dedup(s) == pre.push(s.last()));
        assert(pre.push(s.last()) =~= s);
    }
}

/// LAW — one entry per key: after a merge the entry set has distinct keys,
/// exactly the input's keys plus the incoming entry's, and the incoming entry
/// itself stands at its own key.
pub proof fn lemma_merge_one_per_key(es: Seq<EntryModel>, e: EntryModel)
    ensures
        distinct_keys(spec_merge(es, e)),
        forall|k: (Seq<char>, Seq<char>)|
            has_key(spec_merge(es, e), k) <==> (has_key(es, k) || k == entry_key(e)),
        has_key(spec_merge(es, e), entry_key(e)),
        entry_at(spec_merge(es, e), entry_key(e)) == e,
{
    lemma_dedup_distinct(es);
    lemma_upsert_distinct(dedup(es), e);
}

/// LAW — greatest timestamp per key: the survivor of every key after a merge
/// carries the greatest timestamp of its group. For keys other than the
/// incoming entry's the survivor is one of the existing entries; for the
/// incoming entry's key the survivor is the incoming entry itself, so its
/// timestamp tops its group only when the incoming entry is at least as
/// recent as every stored entry of that key (the merge trusts the caller to
/// hand it the freshest candidate).
pub proof fn lemma_merge_group_max(es: Seq<EntryModel>, e: EntryModel, k: (Seq<char>, Seq<char>))
    requires
        has_key(es, k) || k == entry_key(e),
        k == entry_key(e) ==> forall|j: int|
            0 <= j < es.len() && entry_key(es[j]) == k ==> es[j].last_updated <= e.last_updated,
    ensures
        has_key(spec_merge(es, e), k),
        entry_key(entry_at(spec_merge(es, e), k)) == k,
        k == entry_key(e) ==> entry_at(spec_merge(es, e), k) == e,
        k != entry_key(e) ==> exists|j: int|
            0 <= j < es.len() && es[j] == entry_at(spec_merge(es, e), k),
        forall|j: int|
            0 <= j < es.len() && entry_key(es[j]) == k ==> es[j].last_updated <= entry_at(
                spec_merge(es, e),
                k,
            ).last_updated,
{
    lemma_dedup_distinct(es);
    lemma_upsert_distinct(dedup(es), e);
    if k == entry_key(e) {
        assert(entry_at(spec_merge(es, e), k) == e);
    } else {
        assert(has_key(es, k));
        lemma_dedup_group(es, k);
        assert(entry_at(spec_merge(es, e), k) == entry_at(dedup(es), k));
    }
}

/// Entries surviving a prefix removal all carry other keys, and every other
/// key of the prefix survives.
proof fn lemma_removed_prefix(s: Seq<EntryModel>, k: (Seq<char>, Seq<char>), i: int)
    requires
        0 <= i <= s.len(),
    ensures
        forall|t: int|
            0 <= t < removed_prefix(s, k, i).len() ==> entry_key(
                #[trigger] removed_prefix(s, k, i)[t],
            ) != k,
        forall|k2: (Seq<char>, Seq<char>)|
            k2 != k ==> (has_key(removed_prefix(s, k, i), k2) <==> exists|j: int|
                0 <= j < i && entry_key(s[j]) == k2),
    decreases i,
{
    if i > 0 {
        lemma_removed_prefix(s, k, i - 1);
        let r = removed_prefix(s, k, i);
        let rp = removed_prefix(s, k, i - 1);
        assert forall|k2: (Seq<char>, Seq<char>)|
            k2 != k implies (has_key(r, k2) <==> exists|j: int|
            0 <= j < i && entry_key(s[j]) == k2) by {
            if entry_key(s[i - 1]) == k {
                if has_key(r, k2) {
                    let j = choose|j: int| 0 <= j < i - 1 && entry_key(s[j]) == k2;
                    assert(0 <= j < i && entry_key(s[j]) == k2);
                }
                if exists|j: int| 0 <= j < i && entry_key(s[j]) == k2 {
                    let j = choose|j: int| 0 <= j < i && entry_key(s[j]) == k2;
                    assert(j < i - 1);
                    assert(has_key(rp, k2));
                }
            } else {
                if has_key(r, k2) {
                    let t = choose|t: int| 0 <= t < r.len() && entry_key(r[t]) == k2;
                    if t < rp.len() {
                        assert(has_key(rp, k2));
                        let j = choose|j: int| 0 <= j < i - 1 && entry_key(s[j]) == k2;
                        assert(0 <= j < i && entry_key(s[j]) == k2);
                    } else {
                        assert(r[t] == s[i - 1]);
                        assert(0 <= i - 1 < i && entry_key(s[i - 1]) == k2);
                    }
                }
                if exists|j: int| 0 <= j < i && entry_key(s[j]) == k2 {
                    let j = choose|j: int| 0 <= j < i && entry_key(s[j]) == k2;
                    if j < i - 1 {
                        assert(has_key(rp, k2));
                        let t = choose|t: int| 0 <= t < rp.len() && entry_key(rp[t]) == k2;
                        assert(entry_key(r[t]) == k2);
                    } else {
                        assert(entry_key(r[r.len() - 1]) == k2);
                    }
                }
            }
        }
    }
}

/// LAW — removal is effective regardless of a prior merge: stripping a key
/// leaves no entry with that key, and every other key survives untouched.
pub proof fn lemma_remove_no_key(s: Seq<EntryModel>, k: (Seq<char>, Seq<char>))
    ensures
        !has_key(spec_remove(s, k), k),
        forall|k2: (Seq<char>, Seq<char>)|
            k2 != k ==> (has_key(spec_remove(s, k), k2) <==> has_key(s, k2)),
{
    lemma_removed_prefix(s, k, s.len() as int);
    assert(!has_key(spec_remove(s, k), k)) by {
        if has_key(spec_remove(s, k), k) {
            let t = choose|t: int|
                0 <= t < spec_remove(s, k).len() && entry_key(spec_remove(s, k)[t]) == k;
            assert(entry_key(removed_prefix(s, k, s.len() as int)[t]) != k);
        }
    }
}

/// LAW — removal undoes a merge of the same key: removing the merged entry's
/// key from the merged set leaves no entry with that key.
pub proof fn lemma_remove_after_merge(es: Seq<EntryModel>, e: EntryModel)
    ensures
        !has_key(spec_remove(spec_merge(es, e), entry_key(e)), entry_key(e)),
{
    lemma_remove_no_key(spec_merge(es, e), entry_key(e));
}

proof fn lemma_dedup_insert_elements(acc: Seq<EntryModel>, x: EntryModel)
    ensures
        forall|t: int|
            0 <= t < dedup_insert(acc, x).len() ==> (#[trigger] dedup_insert(acc, x)[t] == x
                || exists|j: int| 0 <= j < acc.len() && acc[j] == dedup_insert(acc, x)[t]),
{
    let r = dedup_insert(acc, x);
    assert forall|t: int|
        0 <= t < r.len() implies (#[trigger] r[t] == x || exists|j: int|
        0 <= j < acc.len() && acc[j] == r[t]) by {
        if !has_key(acc, entry_key(x)) {
            if t < acc.len() {
                assert(acc[t] == r[t]);
            }
        } else {
            let i = idx_of_key(acc, entry_key(x));
            if x.last_updated >= acc[i].last_updated {
                if t != i {
                    assert(acc[t] == r[t]);
                }
            } else {
                assert(acc[t] == r[t]);
            }
        }
    }
}

proof fn lemma_dedup_elements(s: Seq<EntryModel>)
    ensures
        forall|t: int|
            0 <= t < dedup(s).len() ==> exists|j: int| 0 <= j < s.len() && s[j] == #[trigger] dedup(
                s,
            )[t],
    decreases s.len(),
{
    if s.len() > 0 {
        let pre = s.drop_last();
        lemma_dedup_elements(pre);
        lemma_dedup_insert_elements(dedup(pre), s.last());
        assert forall|t: int|
            0 <= t < dedup(s).len() implies exists|j: int|
            0 <= j < s.len() && s[j] == #[trigger] dedup(s)[t] by {
            if dedup(s)[t] == s.last() {
                assert(s[s.len() - 1] == dedup(s)[t]);
            } else {
                let j1 = choose|j: int| 0 <= j < dedup(pre).len() && dedup(pre)[j] == dedup(s)[t];
                let j2 = choose|j: int| 0 <= j < pre.len() && pre[j] == dedup(pre)[j1];
                assert(s[j2] == dedup(s)[t]);
            }
        }
    }
}

/// Every entry of a merged set is the incoming entry or one of the read set.
pub proof fn lemma_merge_elements(s: Seq<EntryModel>, e: EntryModel)
    ensures
        forall|t: int|
            0 <= t < spec_merge(s, e).len() ==> (#[trigger] spec_merge(s, e)[t] == e || exists|
                j: int,
            | 0 <= j < s.len() && s[j] == spec_merge(s, e)[t]),
{
    let d = dedup(s);
    lemma_dedup_elements(s);
    let r = spec_merge(s, e);
    assert forall|t: int|
        0 <= t < r.len() implies (#[trigger] r[t] == e || exists|j: int|
        0 <= j < s.len() && s[j] == r[t]) by {
        if has_key(d, entry_key(e)) {
            let i = idx_of_key(d, entry_key(e));
            if t != i && t < d.len() {
                assert(d[t] == r[t]);
            }
        } else {
            if t < d.len() {
                assert(d[t] == r[t]);
            }
        }
        if t < d.len() && d[t] == r[t] {
            let j2 = choose|j: int| 0 <= j < s.len() && s[j] == d[t];
            assert(s[j2] == r[t]);
        }
    }
}

/// Every entry surviving a removal is one of the read set.
pub proof fn lemma_remove_prefix_elements(s: Seq<EntryModel>, k: (Seq<char>, Seq<char>), i: int)
    requires
        0 <= i <= s.len(),
    ensures
        forall|t: int|
            0 <= t < removed_prefix(s, k, i).len() ==> exists|j: int|
                0 <= j < s.len() && s[j] == #[trigger] removed_prefix(s, k, i)[t],
    decreases i,
{
    if i > 0 {
        lemma_remove_prefix_elements(s, k, i - 1);
        let r = removed_prefix(s, k, i);
        let rp = removed_prefix(s, k, i - 1);
        assert forall|t: int|
            0 <= t < r.len() implies exists|j: int| 0 <= j < s.len() && s[j] == #[trigger] r[t] by {
            if entry_key(s[i - 1]) == k {
            } else {
                if t < rp.len() {
                    let j2 = choose|j: int| 0 <= j < s.len() && s[j] == rp[t];
                    assert(s[j2] == r[t]);
                } else {
                    assert(s[i - 1] == r[t]);
                }
            }
        }
    }
}

/// LAW — no lost update: two writers racing on one document insert entries
/// with distinct keys; conditional writes make the loser re-read the winner's
/// document and re-merge, so the final document is the sequential merge of
/// both entries, in either order — and that document holds both entries.
pub proof fn lemma_concurrent_merges_converge(es: Seq<EntryModel>, a: EntryModel, b: EntryModel)
    requires
        entry_key(a) != entry_key(b),
    ensures
        distinct_keys(spec_merge(spec_merge(es, a), b)),
        entry_at(spec_merge(spec_merge(es, a), b), entry_key(a)) == a,
        entry_at(spec_merge(spec_merge(es, a), b), entry_key(b)) == b,
{
    let m1 = spec_merge(es, a);
    lemma_merge_one_per_key(es, a);
    lemma_dedup_of_distinct(m1);
    lemma_upsert_distinct(m1, b);
    assert(spec_merge(m1, b) == upsert(m1, b));
    assert(entry_at(upsert(m1, b), entry_key(a)) == entry_at(m1, entry_key(a)));
}

} // verus!

//! Properties of the pool that relate several operations or hold of every
//! state, proved over the models that the operations' contracts use.
use vstd::prelude::*;

use crate::allocation::{
    is_candidate, least_candidate, lemma_least_candidate, lemma_water_fill_count,
    lemma_water_fill_fair, total_capacity, water_fill,
};
use crate::domain::{selector_fallback, Domain, SelectorView};
use crate::key::{effective_uses, is_cooling, minute_start, open_mask, selects, usages, KeyView};
use crate::storage::{
    acquired, cooled, expiry, has_capacity, lemma_merge_domains, merge_domains, pick, refilled,
    resolve, retained, timed_out,
};

verus! {

/// One acquisition raises the effective usage of the key it picks by exactly
/// one, stamps that key with `now`, and leaves every other key unchanged.
pub proof fn law_single_acquisition(keys: Seq<KeyView>, s: SelectorView, now: u64, limit: int)
    requires
        has_capacity(keys, s, now, limit),
    ensures
        ({
            let i = pick(keys, s, now, limit);
            let after = acquired(keys, s, now, limit);
            &&& 0 <= i < keys.len()
            &&& selects(s, keys[i])
            &&& effective_uses(keys[i], now) < limit
            &&& effective_uses(after[i], now) == effective_uses(keys[i], now) + 1
            &&& after[i].last_used == now
            &&& after.len() == keys.len()
            &&& forall|j: int| 0 <= j < keys.len() && j != i ==> after[j] == keys[j]
        }),
{
    lemma_least_candidate(usages(keys, now), open_mask(keys, s, now), limit);
    let i = pick(keys, s, now, limit);
    assert(now as int >= minute_start(now));
}

/// No acquisition, single or bulk, takes a key past the limit: a table whose
/// counts are within the limit stays so, however many acquisitions follow.
pub proof fn law_no_overrun(keys: Seq<KeyView>, s: SelectorView, now: u64, limit: int, n: nat)
    requires
        forall|i: int| 0 <= i < keys.len() ==> 0 <= (#[trigger] keys[i]).uses <= limit,
    ensures
        has_capacity(keys, s, now, limit) ==> forall|i: int|
            0 <= i < keys.len() ==> 0 <= (#[trigger] acquired(keys, s, now, limit)[i]).uses <= limit,
        ({
            let after = refilled(keys, water_fill(usages(keys, now), open_mask(keys, s, now), limit, n).0, now);
            forall|i: int| 0 <= i < keys.len() ==> 0 <= (#[trigger] after[i]).uses <= limit
        }),
{
    let u = usages(keys, now);
    let m = open_mask(keys, s, now);
    lemma_least_candidate(u, m, limit);
    lemma_water_fill_count(u, m, limit, n);
    let after = water_fill(u, m, limit, n).0;
    assert forall|i: int| 0 <= i < keys.len() implies 0 <= (#[trigger] refilled(keys, after, now)[i]).uses
        <= limit by {
        assert(u[i] == effective_uses(keys[i], now));
    }
}

/// A bulk acquisition charges exactly `min(n, total remaining capacity)`
/// slots. Among keys that could take a use beforehand and whose effective
/// usages differed by at most one, the usages afterwards still differ by at
/// most one.
pub proof fn law_bulk_fairness(keys: Seq<KeyView>, s: SelectorView, now: u64, limit: int, n: nat)
    requires
        forall|i: int, j: int|
            is_candidate(usages(keys, now), open_mask(keys, s, now), limit, i) && is_candidate(
                usages(keys, now),
                open_mask(keys, s, now),
                limit,
                j,
            ) ==> effective_uses(keys[i], now) - effective_uses(keys[j], now) <= 1,
    ensures
        ({
            let u = usages(keys, now);
            let m = open_mask(keys, s, now);
            let (fill, picks) = water_fill(u, m, limit, n);
            let after = refilled(keys, fill, now);
            let total = total_capacity(u, m, limit);
            &&& picks.len() == if n <= total {
                n as int
            } else {
                total
            }
            &&& forall|i: int, j: int|
                is_candidate(u, m, limit, i) && is_candidate(u, m, limit, j) ==> effective_uses(
                    after[i],
                    now,
                ) - effective_uses(after[j], now) <= 1
        }),
{
    let u = usages(keys, now);
    let m = open_mask(keys, s, now);
    lemma_water_fill_count(u, m, limit, n);
    lemma_water_fill_fair(u, m, limit, n);
    let fill = water_fill(u, m, limit, n).0;
    let after = refilled(keys, fill, now);
    assert(now as int >= minute_start(now));
    assert forall|i: int| 0 <= i < keys.len() implies effective_uses(#[trigger] after[i], now)
        == fill[i] by {}
    assert forall|i: int, j: int|
        is_candidate(u, m, limit, i) && is_candidate(u, m, limit, j) implies effective_uses(
        after[i],
        now,
    ) - effective_uses(after[j], now) <= 1 by {
        assert(effective_uses(after[i], now) == fill[i]);
        assert(effective_uses(after[j], now) == fill[j]);
    }
}

/// When no key under a selector has capacity but one under its fallback
/// does, acquisition goes to the fallback and hands out a key that the
/// fallback admits.
pub proof fn law_fallback(keys: Seq<KeyView>, s: SelectorView, f: SelectorView, now: u64, limit: int)
    requires
        !has_capacity(keys, s, now, limit),
        selector_fallback(s) == Some(f),
        has_capacity(keys, f, now, limit),
    ensures
        resolve(keys, s, now, limit) == Some(f),
        selects(f, acquired(keys, f, now, limit)[pick(keys, f, now, limit)]),
{
    crate::domain::lemma_fallback_is_final(s);
    assert(resolve(keys, f, now, limit) == Some(f));
    law_single_acquisition(keys, f, now, limit);
}

/// Once the keys that a selector admits have all been removed, nothing under
/// that selector can be acquired: acquisition moves on to the fallback, or
/// reports the selector unavailable.
pub proof fn law_removed_keys_unavailable(
    keys: Seq<KeyView>,
    removed: SelectorView,
    s: SelectorView,
    now: u64,
    limit: int,
)
    requires
        forall|j: int| 0 <= j < keys.len() && selects(s, #[trigger] keys[j]) ==> selects(removed, keys[j]),
    ensures
        !has_capacity(retained(keys, removed), s, now, limit),
        resolve(retained(keys, removed), s, now, limit) == match selector_fallback(s) {
            Some(f) => resolve(retained(keys, removed), f, now, limit),
            None => None,
        },
{
    let ks = retained(keys, removed);
    lemma_retained_excludes(keys, removed, s);
    let u = usages(ks, now);
    let m = open_mask(ks, s, now);
    lemma_least_candidate(u, m, limit);
    if has_capacity(ks, s, now, limit) {
        let i = least_candidate(u, m, limit)->0;
        assert(m[i]);
        assert(selects(s, ks[i]));
    }
    crate::domain::lemma_fallback_is_final(s);
}

proof fn lemma_retained_excludes(keys: Seq<KeyView>, removed: SelectorView, s: SelectorView)
    requires
        forall|j: int| 0 <= j < keys.len() && selects(s, #[trigger] keys[j]) ==> selects(removed, keys[j]),
    ensures
        forall|j: int|
            0 <= j < retained(keys, removed).len() ==> !selects(s, #[trigger] retained(keys, removed)[j]),
    decreases keys.len(),
{
    if keys.len() > 0 {
        let p = keys.drop_last();
        assert forall|j: int| 0 <= j < p.len() && selects(s, #[trigger] p[j]) implies selects(
            removed,
            p[j],
        ) by {
            assert(p[j] == keys[j]);
        }
        lemma_retained_excludes(p, removed, s);
        let r = retained(p, removed);
        if !selects(removed, keys.last()) {
            assert(!selects(s, keys[keys.len() - 1]));
            assert forall|j: int|
                0 <= j < r.push(keys.last()).len() implies !selects(s, #[trigger] r.push(keys.last())[j]) by {
                if j < r.len() {
                    assert(r.push(keys.last())[j] == r[j]);
                }
            }
        }
    }
}

/// A key put on cooldown for `duration` seconds at `now` is withheld at every
/// instant before the cooldown expires and available again from then on.
pub proof fn law_cooldown(keys: Seq<KeyView>, s: SelectorView, duration: u64, now: u64, i: int, t: u64)
    requires
        0 <= i < keys.len(),
        selects(s, keys[i]),
    ensures
        is_cooling(timed_out(keys, s, expiry(now, duration))[i], t) <==> t < expiry(now, duration),
        open_mask(timed_out(keys, s, expiry(now, duration)), s, t)[i] <==> t >= expiry(now, duration),
{
    let ks = timed_out(keys, s, expiry(now, duration));
    assert(ks[i] == cooled(keys[i], expiry(now, duration)));
    assert(selects(s, ks[i]));
}

/// Removing the keys with one id, as flagging a key with an error code whose
/// action is removal does, leaves no key with that id; a selector that only
/// that key satisfied then has nothing to hand out and moves on to its
/// fallback.
pub proof fn law_flag_removes(keys: Seq<KeyView>, key_id: i32, s: SelectorView, now: u64, limit: int)
    requires
        forall|j: int| 0 <= j < keys.len() && selects(s, #[trigger] keys[j]) ==> keys[j].id == key_id,
    ensures
        forall|j: int|
            0 <= j < retained(keys, SelectorView::Id(key_id)).len() ==> (#[trigger] retained(
                keys,
                SelectorView::Id(key_id),
            )[j]).id != key_id,
        !has_capacity(retained(keys, SelectorView::Id(key_id)), s, now, limit),
{
    lemma_retained_excludes(keys, SelectorView::Id(key_id), SelectorView::Id(key_id));
    law_removed_keys_unavailable(keys, SelectorView::Id(key_id), s, now, limit);
}

/// Storing a secret that is already present leaves its key with the domains
/// it had followed by the given ones it lacked: each domain of either list
/// once, and no other.
pub proof fn law_upsert_domains(old_domains: Seq<Domain>, given: Seq<Domain>)
    requires
        old_domains.no_duplicates(),
    ensures
        merge_domains(old_domains, given).no_duplicates(),
        merge_domains(old_domains, given).to_set() == old_domains.to_set().union(given.to_set()),
{
    lemma_merge_domains(old_domains, given);
}

/// The keys after `k` acquisitions under `s` at `now`, one after another, as
/// the store serializes concurrent callers; an acquisition that finds no
/// key leaves the keys as they are.
pub open spec fn after_acquisitions(keys: Seq<KeyView>, s: SelectorView, now: u64, limit: int, k: nat) -> Seq<
    KeyView,
>
    decreases k,
{
    if k == 0 {
        keys
    } else {
        let prev = after_acquisitions(keys, s, now, limit, (k - 1) as nat);
        match resolve(prev, s, now, limit) {
            Some(t) => acquired(prev, t, now, limit),
            None => prev,
        }
    }
}

/// However many acquisitions run against one selector, no key's count ever
/// passes the limit.
pub proof fn law_no_overrun_after_any_number(
    keys: Seq<KeyView>,
    s: SelectorView,
    now: u64,
    limit: int,
    k: nat,
)
    requires
        forall|i: int| 0 <= i < keys.len() ==> 0 <= (#[trigger] keys[i]).uses <= limit,
    ensures
        after_acquisitions(keys, s, now, limit, k).len() == keys.len(),
        forall|i: int|
            0 <= i < keys.len() ==> 0 <= (#[trigger] after_acquisitions(keys, s, now, limit, k)[i]).uses
                <= limit,
    decreases k,
{
    if k > 0 {
        law_no_overrun_after_any_number(keys, s, now, limit, (k - 1) as nat);
        let prev = after_acquisitions(keys, s, now, limit, (k - 1) as nat);
        if let Some(t) = resolve(prev, s, now, limit) {
            lemma_resolve_has_capacity(prev, s, now, limit);
            law_single_acquisition(prev, t, now, limit);
            law_no_overrun(prev, t, now, limit, 0);
        }
    }
}

proof fn lemma_resolve_has_capacity(keys: Seq<KeyView>, s: SelectorView, now: u64, limit: int)
    ensures
        resolve(keys, s, now, limit) matches Some(t) ==> has_capacity(keys, t, now, limit),
    decreases crate::domain::selector_rank(s),
{
    if !has_capacity(keys, s, now, limit) {
        if let Some(f) = selector_fallback(s) {
            crate::domain::lemma_fallback_is_final(s);
            lemma_resolve_has_capacity(keys, f, now, limit);
        }
    }
}

} // verus!

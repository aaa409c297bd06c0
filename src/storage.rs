//! The key table and the operations of the pool's storage.
use vstd::prelude::*;

use crate::allocation::{
    is_candidate, least_candidate, least_within, lemma_least_candidate, lemma_water_fill_count,
    water_fill,
};
use crate::domain::{Domain, lemma_fallback_is_final, selector_fallback, selector_rank, KeySelector, SelectorView};
use crate::error::PoolError;
use crate::key::{
    charged, contains_domain, copy_domains, effective_uses, open_mask, selects, usages, KeyView, StoredKey,
};

verus! {

/// A row of counters, as integers.
pub open spec fn counts(v: Seq<i16>) -> Seq<int> {
    v.map_values(|x: i16| x as int)
}

/// A row of indices, as integers.
pub open spec fn indices(v: Seq<usize>) -> Seq<int> {
    v.map_values(|x: usize| x as int)
}

/// Some key that `s` admits is open and below the limit.
pub open spec fn has_capacity(keys: Seq<KeyView>, s: SelectorView, now: u64, limit: int) -> bool {
    least_candidate(usages(keys, now), open_mask(keys, s, now), limit) is Some
}

/// The first selector of the fallback chain of `s` under which some key has
/// capacity.
pub open spec fn resolve(keys: Seq<KeyView>, s: SelectorView, now: u64, limit: int) -> Option<
    SelectorView,
>
    decreases selector_rank(s),
{
    if has_capacity(keys, s, now, limit) {
        Some(s)
    } else {
        match selector_fallback(s) {
            Some(f) => if selector_rank(f) < selector_rank(s) {
                resolve(keys, f, now, limit)
            } else {
                None
            },
            None => None,
        }
    }
}

/// The key that one acquisition under `s` charges: the first open key of
/// least effective usage.
pub open spec fn pick(keys: Seq<KeyView>, s: SelectorView, now: u64, limit: int) -> int {
    least_candidate(usages(keys, now), open_mask(keys, s, now), limit)->0
}

/// The keys after one acquisition under `s`.
pub open spec fn acquired(keys: Seq<KeyView>, s: SelectorView, now: u64, limit: int) -> Seq<KeyView> {
    let i = pick(keys, s, now, limit);
    keys.update(i, charged(keys[i], usages(keys, now)[i] + 1, now))
}

/// The keys with the usages `after`: each key whose usage changed is charged at `now`.
pub open spec fn refilled(keys: Seq<KeyView>, after: Seq<int>, now: u64) -> Seq<KeyView> {
    Seq::new(
        keys.len(),
        |i: int|
            if after[i] != usages(keys, now)[i] {
                charged(keys[i], after[i], now)
            } else {
                keys[i]
            },
    )
}

/// `a` followed by the domains of `b` that are not already present, in order.
pub open spec fn merge_domains(a: Seq<Domain>, b: Seq<Domain>) -> Seq<Domain>
    decreases b.len(),
{
    if b.len() == 0 {
        a
    } else {
        let r = merge_domains(a, b.drop_last());
        if r.contains(b.last()) {
            r
        } else {
            r.push(b.last())
        }
    }
}

/// `ds` without `d`.
pub open spec fn without(ds: Seq<Domain>, d: Domain) -> Seq<Domain>
    decreases ds.len(),
{
    if ds.len() == 0 {
        Seq::empty()
    } else {
        let r = without(ds.drop_last(), d);
        if ds.last() == d {
            r
        } else {
            r.push(ds.last())
        }
    }
}

proof fn lemma_without(ds: Seq<Domain>, d: Domain)
    requires
        ds.no_duplicates(),
    ensures
        without(ds, d).no_duplicates(),
        forall|x: Domain| #[trigger] without(ds, d).contains(x) ==> ds.contains(x) && x != d,
    decreases ds.len(),
{
    if ds.len() > 0 {
        let p = ds.drop_last();
        assert(p.no_duplicates()) by {
            assert forall|i: int, j: int| 0 <= i < p.len() && 0 <= j < p.len() && i != j implies p[i]
                != p[j] by {
                assert(p[i] == ds[i] && p[j] == ds[j]);
            }
        }
        lemma_without(p, d);
        let r = without(p, d);
        if ds.last() != d {
            assert(!p.contains(ds.last())) by {
                if p.contains(ds.last()) {
                    let k = choose|k: int| 0 <= k < p.len() && p[k] == ds.last();
                    assert(ds[k] == ds[ds.len() - 1]);
                }
            }
            let r2 = r.push(ds.last());
            assert(!r.contains(ds.last()));
            assert forall|i: int, j: int|
                0 <= i < r2.len() && 0 <= j < r2.len() && i != j implies r2[i] != r2[j] by {
                if i == r.len() {
                    assert(r.contains(r2[j]) ==> r2[j] != ds.last());
                    assert(r[j] == r2[j]);
                } else if j == r.len() {
                    assert(r[i] == r2[i]);
                }
            }
            assert forall|x: Domain| #[trigger] r2.contains(x) implies ds.contains(x) && x != d by {
                let k = choose|k: int| 0 <= k < r2.len() && r2[k] == x;
                if k < r.len() {
                    assert(r.contains(x));
                    let m = choose|m: int| 0 <= m < p.len() && p[m] == x;
                    assert(ds[m] == x);
                } else {
                    assert(ds[ds.len() - 1] == x);
                }
            }
        } else {
            assert forall|x: Domain| #[trigger] r.contains(x) implies ds.contains(x) && x != d by {
                let m = choose|m: int| 0 <= m < p.len() && p[m] == x;
                assert(ds[m] == x);
            }
        }
    }
}

/// A change to the domains of the keys that a selector admits.
#[derive(Debug)]
pub enum DomainEdit {
    Add(Domain),
    Remove(Domain),
    Replace(Vec<Domain>),
}

/// The domains after the edit.
pub open spec fn edited(ds: Seq<Domain>, e: DomainEdit) -> Seq<Domain> {
    match e {
        DomainEdit::Add(d) => merge_domains(ds, seq![d]),
        DomainEdit::Remove(d) => without(ds, d),
        DomainEdit::Replace(v) => merge_domains(Seq::empty(), v@),
    }
}

/// The keys that `s` admits, in order.
pub open spec fn selected(keys: Seq<KeyView>, s: SelectorView) -> Seq<KeyView>
    decreases keys.len(),
{
    if keys.len() == 0 {
        Seq::empty()
    } else {
        let r = selected(keys.drop_last(), s);
        if selects(s, keys.last()) {
            r.push(keys.last())
        } else {
            r
        }
    }
}

/// The keys that `s` does not admit, in order.
pub open spec fn retained(keys: Seq<KeyView>, s: SelectorView) -> Seq<KeyView>
    decreases keys.len(),
{
    if keys.len() == 0 {
        Seq::empty()
    } else {
        let r = retained(keys.drop_last(), s);
        if selects(s, keys.last()) {
            r
        } else {
            r.push(keys.last())
        }
    }
}

/// The index of the first key that `s` admits.
pub open spec fn first_selected(keys: Seq<KeyView>, s: SelectorView) -> Option<int> {
    if exists|i: int| 0 <= i < keys.len() && selects(s, #[trigger] keys[i]) {
        Some(
            choose|i: int|
                0 <= i < keys.len() && selects(s, #[trigger] keys[i]) && forall|j: int|
                    0 <= j < i ==> !selects(s, #[trigger] keys[j]),
        )
    } else {
        None
    }
}

/// The key with the edit applied to its domains.
pub open spec fn with_edit(k: KeyView, e: DomainEdit) -> KeyView {
    KeyView { domains: edited(k.domains, e), ..k }
}

/// The key with a cooldown until `until`.
pub open spec fn cooled(k: KeyView, until: u64) -> KeyView {
    KeyView { cooldown: Some(until), ..k }
}

/// `now + duration`, or the last representable instant.
pub open spec fn expiry(now: u64, duration: u64) -> u64 {
    if now + duration > u64::MAX {
        u64::MAX
    } else {
        (now + duration) as u64
    }
}

/// The key that `store_key` creates.
pub open spec fn fresh_key(id: i32, user_id: i32, secret: Seq<char>, domains: Seq<Domain>) -> KeyView {
    KeyView {
        id,
        user_id,
        secret,
        uses: 0,
        domains: merge_domains(Seq::empty(), domains),
        last_used: 0,
        cooldown: None,
    }
}

proof fn lemma_first_selected(keys: Seq<KeyView>, s: SelectorView, i: int)
    requires
        0 <= i < keys.len(),
        selects(s, keys[i]),
        forall|j: int| 0 <= j < i ==> !selects(s, #[trigger] keys[j]),
    ensures
        first_selected(keys, s) == Some(i),
{
    let c = choose|c: int|
        0 <= c < keys.len() && selects(s, #[trigger] keys[c]) && forall|j: int|
            0 <= j < c ==> !selects(s, #[trigger] keys[j]);
    assert(0 <= c < keys.len() && selects(s, keys[c]));
    if c < i {
        assert(!selects(s, keys[c]));
    }
    if c > i {
        assert(!selects(s, keys[i]));
    }
}

/// The domains stay free of repeats, and hold exactly those of both lists.
pub(crate) proof fn lemma_merge_domains(a: Seq<Domain>, b: Seq<Domain>)
    requires
        a.no_duplicates(),
    ensures
        merge_domains(a, b).no_duplicates(),
        merge_domains(a, b).to_set() == a.to_set().union(b.to_set()),
        forall|d: Domain| #[trigger] merge_domains(a, b).contains(d) <==> a.contains(d) || b.contains(d),
    decreases b.len(),
{
    if b.len() == 0 {
        assert(a.to_set().union(b.to_set()) =~= a.to_set());
    } else {
        let p = b.drop_last();
        lemma_merge_domains(a, p);
        let r = merge_domains(a, p);
        assert forall|d: Domain| b.contains(d) <==> p.contains(d) || d == b.last() by {
            if b.contains(d) {
                let k = choose|k: int| 0 <= k < b.len() && b[k] == d;
                if k < b.len() - 1 {
                    assert(p[k] == d);
                }
            }
            if p.contains(d) {
                let k = choose|k: int| 0 <= k < p.len() && p[k] == d;
                assert(b[k] == d);
            }
            if d == b.last() {
                assert(b[b.len() - 1] == d);
            }
        }
        if !r.contains(b.last()) {
            let r2 = r.push(b.last());
            assert forall|d: Domain| #[trigger] r2.contains(d) <==> r.contains(d) || d == b.last() by {
                if r2.contains(d) {
                    let k = choose|k: int| 0 <= k < r2.len() && r2[k] == d;
                    if k < r.len() {
                        assert(r[k] == d);
                    }
                }
                if r.contains(d) {
                    let k = choose|k: int| 0 <= k < r.len() && r[k] == d;
                    assert(r2[k] == d);
                }
                if d == b.last() {
                    assert(r2[r.len() as int] == d);
                }
            }
        }
        assert(merge_domains(a, b).to_set() =~= a.to_set().union(b.to_set()));
    }
}

/// The kept keys, in their order, each at a later place of `keys` than the one before.
proof fn lemma_retained_embeds(keys: Seq<KeyView>, s: SelectorView) -> (idx: Seq<int>)
    ensures
        idx.len() == retained(keys, s).len(),
        forall|i: int|
            0 <= i < idx.len() ==> 0 <= #[trigger] idx[i] < keys.len() && retained(keys, s)[i]
                == keys[idx[i]],
        forall|i: int, j: int| 0 <= i < j < idx.len() ==> #[trigger] idx[i] < #[trigger] idx[j],
    decreases keys.len(),
{
    if keys.len() == 0 {
        Seq::empty()
    } else {
        let p = lemma_retained_embeds(keys.drop_last(), s);
        if selects(s, keys.last()) {
            p
        } else {
            p.push(keys.len() - 1)
        }
    }
}

/// The mathematical form of a row of keys.
pub open spec fn views(v: Seq<StoredKey>) -> Seq<KeyView> {
    v.map_values(|k: StoredKey| k@)
}

/// Counts within the limit, ids below `next_id`, ids and secrets unique,
/// domains without repeats.
pub open spec fn keys_wf(ks: Seq<KeyView>, limit: int, next_id: int) -> bool {
    &&& forall|i: int|
        0 <= i < ks.len() ==> {
            &&& 0 <= (#[trigger] ks[i]).uses <= limit
            &&& 1 <= ks[i].id < next_id
            &&& ks[i].domains.no_duplicates()
        }
    &&& forall|i: int, j: int|
        0 <= i < ks.len() && 0 <= j < ks.len() && i != j ==> #[trigger] ks[i].id != #[trigger] ks[j].id
            && ks[i].secret != ks[j].secret
}

proof fn lemma_retained_wf(ks: Seq<KeyView>, s: SelectorView, limit: int, next_id: int)
    requires
        keys_wf(ks, limit, next_id),
    ensures
        keys_wf(retained(ks, s), limit, next_id),
{
    let idx = lemma_retained_embeds(ks, s);
    let ks2 = retained(ks, s);
    assert forall|a: int| 0 <= a < ks2.len() implies {
        &&& 0 <= (#[trigger] ks2[a]).uses <= limit
        &&& 1 <= ks2[a].id < next_id
        &&& ks2[a].domains.no_duplicates()
    } by {
        assert(ks2[a] == ks[idx[a]]);
    }
    assert forall|a: int, b: int|
        0 <= a < ks2.len() && 0 <= b < ks2.len() && a != b implies #[trigger] ks2[a].id
        != #[trigger] ks2[b].id && ks2[a].secret != ks2[b].secret by {
        assert(ks2[a] == ks[idx[a]]);
        assert(ks2[b] == ks[idx[b]]);
        if a < b {
            assert(idx[a] < idx[b]);
        } else {
            assert(idx[b] < idx[a]);
        }
    }
}

/// The keys with the edit applied to those that `s` admits.
pub open spec fn edited_keys(ks: Seq<KeyView>, s: SelectorView, e: DomainEdit) -> Seq<KeyView> {
    Seq::new(ks.len(), |j: int| if selects(s, ks[j]) { with_edit(ks[j], e) } else { ks[j] })
}

/// The keys with those that `s` admits cooling down until `until`.
pub open spec fn timed_out(ks: Seq<KeyView>, s: SelectorView, until: u64) -> Seq<KeyView> {
    Seq::new(ks.len(), |j: int| if selects(s, ks[j]) { cooled(ks[j], until) } else { ks[j] })
}

proof fn lemma_edited_wf(ks: Seq<KeyView>, s: SelectorView, e: DomainEdit, limit: int, next_id: int)
    requires
        keys_wf(ks, limit, next_id),
    ensures
        keys_wf(edited_keys(ks, s, e), limit, next_id),
{
    let ks2 = edited_keys(ks, s, e);
    assert forall|a: int| 0 <= a < ks2.len() implies {
        &&& 0 <= (#[trigger] ks2[a]).uses <= limit
        &&& 1 <= ks2[a].id < next_id
        &&& ks2[a].domains.no_duplicates()
    } by {
        assert(ks[a].domains.no_duplicates());
        if selects(s, ks[a]) {
            match e {
                DomainEdit::Add(d) => lemma_merge_domains(ks[a].domains, seq![d]),
                DomainEdit::Remove(d) => lemma_without(ks[a].domains, d),
                DomainEdit::Replace(v) => lemma_merge_domains(Seq::empty(), v@),
            }
        }
    }
    assert forall|a: int, b: int|
        0 <= a < ks2.len() && 0 <= b < ks2.len() && a != b implies #[trigger] ks2[a].id
        != #[trigger] ks2[b].id && ks2[a].secret != ks2[b].secret by {
        assert(ks[a].id != ks[b].id);
    }
}

/// The table of keys of one pool, with the per-key limit of uses per minute.
#[derive(Debug)]
pub struct KeyTable {
    pub limit: i16,
    pub keys: Vec<StoredKey>,
    /// The id that the next stored key receives.
    pub next_id: i32,
}

impl KeyTable {
    pub open spec fn keys_view(&self) -> Seq<KeyView> {
        views(self.keys@)
    }

    /// Counts within the limit, ids and secrets unique, domains without repeats.
    pub open spec fn wf(&self) -> bool {
        &&& 0 <= self.limit
        &&& 1 <= self.next_id
        &&& keys_wf(self.keys_view(), self.limit as int, self.next_id as int)
    }

    /// An empty table whose keys take at most `limit` uses per minute.
    pub fn new(limit: i16) -> (r: KeyTable)
        requires
            limit >= 0,
        ensures
            r.wf(),
            r.limit == limit,
            r.keys_view().len() == 0,
    {
        KeyTable { limit, keys: Vec::new(), next_id: 1 }
    }

    /// Effective usage and openness of every key under `s`.
    fn survey(&self, s: &KeySelector, now: u64) -> (r: (Vec<i16>, Vec<bool>))
        requires
            self.wf(),
        ensures
            r.0@.len() == self.keys@.len(),
            r.1@.len() == self.keys@.len(),
            counts(r.0@) == usages(self.keys_view(), now),
            r.1@ == open_mask(self.keys_view(), s@, now),
            forall|i: int| 0 <= i < r.0@.len() ==> 0 <= #[trigger] r.0@[i] <= self.limit,
    {
        let mut u: Vec<i16> = Vec::new();
        let mut open: Vec<bool> = Vec::new();
        let mut i: usize = 0;
        while i < self.keys.len()
            invariant
                self.wf(),
                i <= self.keys@.len(),
                u@.len() == i,
                open@.len() == i,
                counts(u@) == usages(self.keys_view(), now).subrange(0, i as int),
                open@ == open_mask(self.keys_view(), s@, now).subrange(0, i as int),
                forall|j: int| 0 <= j < u@.len() ==> 0 <= #[trigger] u@[j] <= self.limit,
            decreases self.keys.len() - i,
        {
            let k = &self.keys[i];
            assert(self.keys_view()[i as int] == k@);
            let e = k.effective_uses(now);
            let o = s.selects(k) && !k.is_cooling(now);
            let ghost pu = u@;
            u.push(e);
            open.push(o);
            proof {
                assert(counts(u@) =~= counts(pu).push(e as int));
                assert(usages(self.keys_view(), now).subrange(0, i + 1) =~= usages(
                    self.keys_view(),
                    now,
                ).subrange(0, i as int).push(e as int));
                assert(open_mask(self.keys_view(), s@, now).subrange(0, i + 1) =~= open_mask(
                    self.keys_view(),
                    s@,
                    now,
                ).subrange(0, i as int).push(o));
            }
            i = i + 1;
        }
        proof {
            assert(usages(self.keys_view(), now).subrange(0, i as int) =~= usages(
                self.keys_view(),
                now,
            ));
            assert(open_mask(self.keys_view(), s@, now).subrange(0, i as int) =~= open_mask(
                self.keys_view(),
                s@,
                now,
            ));
        }
        (u, open)
    }

    /// The key with its count set to `uses`, charged at `now`.
    fn charge(k: &StoredKey, uses: i16, now: u64) -> (r: StoredKey)
        ensures
            r@ == charged(k@, uses as int, now),
    {
        let mut c = k.duplicate();
        c.uses = uses;
        c.last_used = now;
        c.cooldown = None;
        c
    }

    /// Charges the key that one acquisition under `s` picks, if any has capacity.
    fn charge_one(&mut self, s: &KeySelector, now: u64) -> (r: Option<usize>)
        requires
            old(self).wf(),
        ensures
            final(self).wf(),
            final(self).limit == old(self).limit,
            final(self).next_id == old(self).next_id,
            has_capacity(old(self).keys_view(), s@, now, old(self).limit as int) <==> r is Some,
            r is None ==> final(self).keys_view() == old(self).keys_view(),
            r matches Some(i) ==> {
                &&& i < final(self).keys@.len()
                &&& i == pick(old(self).keys_view(), s@, now, old(self).limit as int)
                &&& final(self).keys_view() == acquired(
                    old(self).keys_view(),
                    s@,
                    now,
                    old(self).limit as int,
                )
            },
    {
        let (u, open) = self.survey(s, now);
        let found = least_index(&u, &open, self.limit);
        match found {
            None => None,
            Some(i) => {
                let ghost ks = self.keys_view();
                proof {
                    lemma_least_candidate(counts(u@), open@, self.limit as int);
                    let j = least_candidate(counts(u@), open@, self.limit as int)->0;
                    assert(0 <= j < u.len());
                    assert(counts(u@)[i as int] == u@[i as int] as int);
                    assert(ks[i as int] == self.keys@[i as int]@);
                }
                let c = Self::charge(&self.keys[i], u[i] + 1, now);
                self.keys.set(i, c);
                proof {
                    assert(self.keys_view() =~= acquired(ks, s@, now, self.limit as int));
                    let ks2 = self.keys_view();
                    assert forall|a: int, b: int|
                        0 <= a < ks2.len() && 0 <= b < ks2.len() && a != b implies #[trigger] ks2[a].id
                        != #[trigger] ks2[b].id && ks2[a].secret != ks2[b].secret by {
                        assert(ks[a].id != ks[b].id);
                    }
                }
                Some(i)
            },
        }
    }

    /// Hands out one key admitted by `selector`, or by its fallback when no
    /// key under the selector has capacity, and charges it one use.
    pub fn acquire_key(&mut self, selector: KeySelector, now: u64) -> (r: Result<StoredKey, PoolError>)
        requires
            old(self).wf(),
        ensures
            final(self).wf(),
            final(self).limit == old(self).limit,
            final(self).next_id == old(self).next_id,
            match resolve(old(self).keys_view(), selector@, now, old(self).limit as int) {
                None => {
                    &&& r == Err::<StoredKey, PoolError>(PoolError::Unavailable(selector))
                    &&& final(self).keys_view() == old(self).keys_view()
                },
                Some(s) => {
                    let i = pick(old(self).keys_view(), s, now, old(self).limit as int);
                    &&& final(self).keys_view() == acquired(
                        old(self).keys_view(),
                        s,
                        now,
                        old(self).limit as int,
                    )
                    &&& r matches Ok(k) && k@ == final(self).keys_view()[i]
                },
            },
    {
        let mut level = selector.duplicate();
        loop
            invariant
                self.wf(),
                self.limit == old(self).limit,
                self.next_id == old(self).next_id,
                self.keys_view() == old(self).keys_view(),
                resolve(old(self).keys_view(), selector@, now, self.limit as int) == resolve(
                    old(self).keys_view(),
                    level@,
                    now,
                    self.limit as int,
                ),
            decreases selector_rank(level@),
        {
            proof {
                lemma_fallback_is_final(level@);
            }
            match self.charge_one(&level, now) {
                Some(i) => {
                    assert(self.keys_view()[i as int] == self.keys@[i as int]@);
                    return Ok(self.keys[i].duplicate());
                },
                None => {},
            }
            match level.fallback() {
                None => {
                    return Err(PoolError::Unavailable(selector));
                },
                Some(f) => {
                    level = f;
                },
            }
        }
    }

    /// Hands out up to `number` slots under `s`, each to the key of least
    /// usage at that moment, and charges all of them at once. `None` when no
    /// key under `s` has capacity.
    fn charge_many(&mut self, s: &KeySelector, number: usize, now: u64) -> (r: Option<
        Vec<StoredKey>,
    >)
        requires
            old(self).wf(),
        ensures
            final(self).wf(),
            final(self).limit == old(self).limit,
            final(self).next_id == old(self).next_id,
            has_capacity(old(self).keys_view(), s@, now, old(self).limit as int) <==> r is Some,
            r is None ==> final(self).keys_view() == old(self).keys_view(),
            r matches Some(v) ==> {
                let ks = old(self).keys_view();
                let (after, picks) = water_fill(
                    usages(ks, now),
                    open_mask(ks, s@, now),
                    old(self).limit as int,
                    number as nat,
                );
                &&& final(self).keys_view() == refilled(ks, after, now)
                &&& v@.len() == picks.len()
                &&& forall|j: int|
                    0 <= j < v@.len() ==> (#[trigger] v@[j])@ == final(self).keys_view()[picks[j]]
            },
    {
        let ghost ks = self.keys_view();
        let (start, open) = self.survey(s, now);
        let ghost u0 = counts(start@);
        let ghost m = open@;
        let ghost limit = self.limit as int;
        if least_index(&start, &open, self.limit).is_none() {
            return None;
        }
        let mut u = copy_counts(&start);
        let mut picks: Vec<usize> = Vec::new();
        let mut k: usize = 0;
        while k < number
            invariant
                self.wf(),
                self.keys_view() == ks,
                limit == self.limit as int,
                u@.len() == open@.len() == ks.len(),
                m == open@,
                k <= number,
                forall|j: int| 0 <= j < u@.len() ==> 0 <= #[trigger] u@[j] <= self.limit,
                forall|p: int| 0 <= p < picks@.len() ==> #[trigger] picks@[p] < u@.len(),
                water_fill(u0, m, limit, number as nat) == ({
                    let rest = water_fill(counts(u@), m, limit, (number - k) as nat);
                    (rest.0, indices(picks@) + rest.1)
                }),
            ensures
                water_fill(counts(u@), m, limit, (number - k) as nat) == (
                    counts(u@),
                    Seq::<int>::empty(),
                ),
            decreases number - k,
        {
            let ghost pu = u@;
            let ghost pp = picks@;
            let found = least_index(&u, &open, self.limit);
            match found {
                None => {
                    break;
                },
                Some(i) => {
                    proof {
                        lemma_least_candidate(counts(u@), m, limit);
                        assert(counts(u@)[i as int] == u@[i as int] as int);
                        let j = least_candidate(counts(u@), m, limit)->0;
                        assert(0 <= j < u.len());
                        assert(least_candidate(counts(u@), m, limit) == Some(i as int));
                        let cu2 = counts(u@).update(i as int, counts(u@)[i as int] + 1);
                        assert(water_fill(counts(u@), m, limit, (number - k) as nat) == (
                            water_fill(cu2, m, limit, (number - k - 1) as nat).0,
                            seq![i as int] + water_fill(cu2, m, limit, (number - k - 1) as nat).1,
                        ));
                    }
                    let v = u[i] + 1;
                    u.set(i, v);
                    picks.push(i);
                    proof {
                        assert(counts(u@) =~= counts(pu).update(i as int, counts(pu)[i as int] + 1));
                        assert(indices(picks@) =~= indices(pp).push(i as int));
                        let rest = water_fill(counts(u@), m, limit, (number - k - 1) as nat);
                        assert(indices(pp) + (seq![i as int] + rest.1) =~= indices(picks@) + rest.1);
                    }
                },
            }
            k = k + 1;
        }
        proof {
            lemma_water_fill_count(u0, m, limit, number as nat);
        }
        let ghost after = water_fill(u0, m, limit, number as nat).0;
        let ghost all_picks = water_fill(u0, m, limit, number as nat).1;
        assert(after == counts(u@));
        assert(all_picks == indices(picks@));
        let mut i: usize = 0;
        while i < self.keys.len()
            invariant
                self.limit == limit,
                self.next_id == old(self).next_id,
                i <= self.keys@.len(),
                self.keys@.len() == ks.len(),
                u@.len() == start@.len() == ks.len(),
                after == counts(u@),
                u0 == counts(start@),
                u0 == usages(ks, now),
                forall|j: int| 0 <= j < u@.len() ==> 0 <= #[trigger] u@[j] <= self.limit,
                forall|j: int| 0 <= j < i ==> #[trigger] self.keys_view()[j] == refilled(ks, after, now)[j],
                forall|j: int| i <= j < ks.len() ==> #[trigger] self.keys_view()[j] == ks[j],
            decreases ks.len() - i,
        {
            let ghost before = self.keys_view();
            assert(before[i as int] == self.keys@[i as int]@);
            assert(after[i as int] == u@[i as int] as int && u0[i as int] == start@[i as int] as int);
            if u[i] != start[i] {
                let c = Self::charge(&self.keys[i], u[i], now);
                self.keys.set(i, c);
                assert(self.keys_view() =~= before.update(i as int, c@));
            }
            i = i + 1;
        }
        proof {
            assert(self.keys_view() =~= refilled(ks, after, now));
            let ks2 = self.keys_view();
            assert forall|a: int| 0 <= a < ks2.len() implies {
                &&& 0 <= #[trigger] ks2[a].uses <= self.limit
                &&& 1 <= ks2[a].id < self.next_id
                &&& ks2[a].domains.no_duplicates()
            } by {
                assert(after[a] == u@[a] as int);
                assert(0 <= ks[a].uses <= self.limit);
            }
            assert forall|a: int, b: int|
                0 <= a < ks2.len() && 0 <= b < ks2.len() && a != b implies #[trigger] ks2[a].id
                != #[trigger] ks2[b].id && ks2[a].secret != ks2[b].secret by {
                assert(ks[a].id != ks[b].id);
            }
        }
        let mut out: Vec<StoredKey> = Vec::new();
        let mut j: usize = 0;
        while j < picks.len()
            invariant
                j <= picks@.len(),
                out@.len() == j,
                all_picks == indices(picks@),
                forall|p: int| 0 <= p < picks@.len() ==> #[trigger] picks@[p] < self.keys@.len(),
                forall|p: int| 0 <= p < j ==> (#[trigger] out@[p])@ == self.keys_view()[all_picks[p]],
            decreases picks.len() - j,
        {
            assert(self.keys_view()[picks@[j as int] as int] == self.keys@[picks@[j as int] as int]@);
            out.push(self.keys[picks[j]].duplicate());
            j = j + 1;
        }
        Some(out)
    }

    /// Hands out up to `number` keys admitted by `selector`, or by its
    /// fallback when no key under the selector has capacity. Each slot goes to
    /// the key of least usage at that moment; a key may fill several slots.
    /// Fewer than `number` come back only when the keys run out of capacity.
    pub fn acquire_many_keys(&mut self, selector: KeySelector, number: usize, now: u64) -> (r: Result<
        Vec<StoredKey>,
        PoolError,
    >)
        requires
            old(self).wf(),
        ensures
            final(self).wf(),
            final(self).limit == old(self).limit,
            final(self).next_id == old(self).next_id,
            match resolve(old(self).keys_view(), selector@, now, old(self).limit as int) {
                None => {
                    &&& r == Err::<Vec<StoredKey>, PoolError>(PoolError::Unavailable(selector))
                    &&& final(self).keys_view() == old(self).keys_view()
                },
                Some(s) => {
                    let ks = old(self).keys_view();
                    let (after, picks) = water_fill(
                        usages(ks, now),
                        open_mask(ks, s, now),
                        old(self).limit as int,
                        number as nat,
                    );
                    &&& final(self).keys_view() == refilled(ks, after, now)
                    &&& r matches Ok(v) && v@.len() == picks.len() && forall|j: int|
                        0 <= j < v@.len() ==> (#[trigger] v@[j])@ == final(self).keys_view()[picks[j]]
                },
            },
    {
        let mut level = selector.duplicate();
        loop
            invariant
                self.wf(),
                self.limit == old(self).limit,
                self.next_id == old(self).next_id,
                self.keys_view() == old(self).keys_view(),
                resolve(old(self).keys_view(), selector@, now, self.limit as int) == resolve(
                    old(self).keys_view(),
                    level@,
                    now,
                    self.limit as int,
                ),
            decreases selector_rank(level@),
        {
            proof {
                lemma_fallback_is_final(level@);
            }
            match self.charge_many(&level, number, now) {
                Some(v) => {
                    return Ok(v);
                },
                None => {},
            }
            match level.fallback() {
                None => {
                    return Err(PoolError::Unavailable(selector));
                },
                Some(f) => {
                    level = f;
                },
            }
        }
    }

    /// The place of the key with this secret.
    fn find_secret(&self, secret: &String) -> (r: Option<usize>)
        ensures
            match r {
                None => forall|i: int|
                    0 <= i < self.keys_view().len() ==> (#[trigger] self.keys_view()[i]).secret
                        != secret@,
                Some(i) => i < self.keys@.len() && self.keys_view()[i as int].secret == secret@,
            },
    {
        let mut i: usize = 0;
        while i < self.keys.len()
            invariant
                i <= self.keys@.len(),
                forall|j: int| 0 <= j < i ==> (#[trigger] self.keys_view()[j]).secret != secret@,
            decreases self.keys.len() - i,
        {
            assert(self.keys_view()[i as int] == self.keys@[i as int]@);
            if self.keys[i].key == *secret {
                return Some(i);
            }
            i = i + 1;
        }
        None
    }

    /// Registers a key, or, where the secret is already stored, adds the
    /// domains that the stored key lacks.
    pub fn store_key(&mut self, user_id: i32, key: String, domains: Vec<Domain>) -> (r: Result<
        StoredKey,
        PoolError,
    >)
        requires
            old(self).wf(),
        ensures
            final(self).wf(),
            final(self).limit == old(self).limit,
            forall|i: int|
                0 <= i < old(self).keys_view().len() && (#[trigger] old(self).keys_view()[i]).secret
                    == key@ ==> {
                    let k = old(self).keys_view()[i];
                    &&& final(self).keys_view() == old(self).keys_view().update(
                        i,
                        KeyView { domains: merge_domains(k.domains, domains@), ..k },
                    )
                    &&& final(self).next_id == old(self).next_id
                    &&& r matches Ok(s) && s@ == final(self).keys_view()[i]
                },
            (forall|i: int|
                0 <= i < old(self).keys_view().len() ==> (#[trigger] old(self).keys_view()[i]).secret
                    != key@) ==> if old(self).next_id < i32::MAX {
                let k = fresh_key(old(self).next_id, user_id, key@, domains@);
                &&& final(self).keys_view() == old(self).keys_view().push(k)
                &&& final(self).next_id == old(self).next_id + 1
                &&& r matches Ok(s) && s@ == k
            } else {
                &&& r matches Err(PoolError::Storage(_))
                &&& final(self).keys_view() == old(self).keys_view()
                &&& final(self).next_id == old(self).next_id
            },
    {
        let ghost ks = self.keys_view();
        match self.find_secret(&key) {
            Some(i) => {
                assert(ks[i as int] == self.keys@[i as int]@);
                assert(ks[i as int].domains.no_duplicates());
                let mut k = self.keys[i].duplicate();
                k.domains = merge_into(&self.keys[i].domains, &domains);
                proof {
                    lemma_merge_domains(ks[i as int].domains, domains@);
                }
                self.keys.set(i, k);
                proof {
                    assert(self.keys_view() =~= ks.update(i as int, k@));
                    let ks2 = self.keys_view();
                    assert forall|a: int, b: int|
                        0 <= a < ks2.len() && 0 <= b < ks2.len() && a != b implies #[trigger] ks2[a].id
                        != #[trigger] ks2[b].id && ks2[a].secret != ks2[b].secret by {
                        assert(ks[a].id != ks[b].id);
                    }
                    assert forall|j: int|
                        0 <= j < ks.len() && (#[trigger] ks[j]).secret == key@ implies j == i by {
                        if j != i {
                            assert(ks[j].id != ks[i as int].id);
                        }
                    }
                }
                Ok(self.keys[i].duplicate())
            },
            None => {
                if self.next_id == i32::MAX {
                    return Err(PoolError::Storage(String::from_str("no key ids are left")));
                }
                let ds = merge_into(&Vec::new(), &domains);
                proof {
                    lemma_merge_domains(Seq::empty(), domains@);
                }
                let k = StoredKey {
                    id: self.next_id,
                    user_id,
                    key,
                    uses: 0,
                    domains: ds,
                    last_used: 0,
                    cooldown: None,
                };
                let out = k.duplicate();
                self.keys.push(k);
                self.next_id = self.next_id + 1;
                proof {
                    assert(self.keys_view() =~= ks.push(k@));
                    let ks2 = self.keys_view();
                    assert forall|a: int, b: int|
                        0 <= a < ks2.len() && 0 <= b < ks2.len() && a != b implies #[trigger] ks2[a].id
                        != #[trigger] ks2[b].id && ks2[a].secret != ks2[b].secret by {
                        if a < ks.len() && b < ks.len() {
                            assert(ks[a].id != ks[b].id);
                        } else if a < ks.len() {
                            assert(ks[a].id < ks2[b].id);
                            assert(ks[a].secret != key@);
                        } else {
                            assert(ks[b].id < ks2[a].id);
                            assert(ks[b].secret != key@);
                        }
                    }
                    assert(ks2[ks.len() as int] == k@);
                }
                Ok(out)
            },
        }
    }

    /// The place of the first key that the selector admits.
    fn find_selected(&self, selector: &KeySelector) -> (r: Option<usize>)
        ensures
            match r {
                None => first_selected(self.keys_view(), selector@) is None,
                Some(k) => k < self.keys@.len() && first_selected(self.keys_view(), selector@) == Some(
                    k as int,
                ),
            },
    {
        let mut i: usize = 0;
        while i < self.keys.len()
            invariant
                i <= self.keys@.len(),
                forall|j: int| 0 <= j < i ==> !selects(selector@, #[trigger] self.keys_view()[j]),
            decreases self.keys.len() - i,
        {
            assert(self.keys_view()[i as int] == self.keys@[i as int]@);
            if selector.selects(&self.keys[i]) {
                proof {
                    lemma_first_selected(self.keys_view(), selector@, i as int);
                }
                return Some(i);
            }
            i = i + 1;
        }
        None
    }

    /// The first key that the selector admits.
    pub fn read_key(&self, selector: &KeySelector) -> (r: Option<StoredKey>)
        ensures
            match first_selected(self.keys_view(), selector@) {
                None => r is None,
                Some(i) => r matches Some(k) && k@ == self.keys_view()[i],
            },
    {
        match self.find_selected(selector) {
            None => None,
            Some(i) => {
                assert(self.keys_view()[i as int] == self.keys@[i as int]@);
                Some(self.keys[i].duplicate())
            },
        }
    }

    /// Every key that the selector admits, in the order of the table.
    pub fn read_keys(&self, selector: &KeySelector) -> (r: Vec<StoredKey>)
        ensures
            views(r@) == selected(self.keys_view(), selector@),
    {
        let mut out: Vec<StoredKey> = Vec::new();
        let mut i: usize = 0;
        while i < self.keys.len()
            invariant
                i <= self.keys@.len(),
                views(out@) == selected(self.keys_view().subrange(0, i as int), selector@),
            decreases self.keys.len() - i,
        {
            let ghost prev = out@;
            assert(self.keys_view()[i as int] == self.keys@[i as int]@);
            assert(self.keys_view().subrange(0, i + 1).drop_last() =~= self.keys_view().subrange(
                0,
                i as int,
            ));
            if selector.selects(&self.keys[i]) {
                out.push(self.keys[i].duplicate());
                assert(views(out@) =~= views(prev).push(self.keys_view()[i as int]));
            }
            i = i + 1;
        }
        assert(self.keys_view().subrange(0, i as int) =~= self.keys_view());
        out
    }

    /// Copies of the keys that the selector does not admit.
    fn copy_unselected(&self, selector: &KeySelector) -> (r: Vec<StoredKey>)
        ensures
            views(r@) == retained(self.keys_view(), selector@),
    {
        let ghost ks = self.keys_view();
        let mut kept: Vec<StoredKey> = Vec::new();
        let mut i: usize = 0;
        while i < self.keys.len()
            invariant
                self.keys_view() == ks,
                i <= self.keys@.len(),
                views(kept@) == retained(ks.subrange(0, i as int), selector@),
            decreases self.keys.len() - i,
        {
            let ghost prev = kept@;
            assert(ks[i as int] == self.keys@[i as int]@);
            assert(ks.subrange(0, i + 1).drop_last() =~= ks.subrange(0, i as int));
            if !selector.selects(&self.keys[i]) {
                kept.push(self.keys[i].duplicate());
                assert(views(kept@) =~= views(prev).push(ks[i as int]));
            }
            i = i + 1;
        }
        assert(ks.subrange(0, i as int) =~= ks);
        kept
    }

    /// Deletes every key that the selector admits and gives back the first.
    pub fn remove_key(&mut self, selector: KeySelector) -> (r: Result<StoredKey, PoolError>)
        requires
            old(self).wf(),
        ensures
            final(self).wf(),
            final(self).limit == old(self).limit,
            final(self).next_id == old(self).next_id,
            match first_selected(old(self).keys_view(), selector@) {
                None => {
                    &&& r == Err::<StoredKey, PoolError>(PoolError::KeyNotFound(selector))
                    &&& final(self).keys_view() == old(self).keys_view()
                },
                Some(i) => {
                    &&& final(self).keys_view() == retained(old(self).keys_view(), selector@)
                    &&& r matches Ok(k) && k@ == old(self).keys_view()[i]
                },
            },
    {
        let ghost ks = self.keys_view();
        let found = self.read_key(&selector);
        match found {
            None => Err(PoolError::KeyNotFound(selector)),
            Some(first) => {
                let kept = self.copy_unselected(&selector);
                self.keys = kept;
                proof {
                    lemma_retained_wf(ks, selector@, self.limit as int, self.next_id as int);
                }
                Ok(first)
            },
        }
    }

    fn edit_all(&mut self, selector: &KeySelector, edit: &DomainEdit)
        requires
            old(self).wf(),
        ensures
            final(self).wf(),
            final(self).limit == old(self).limit,
            final(self).next_id == old(self).next_id,
            final(self).keys_view() == edited_keys(old(self).keys_view(), selector@, *edit),
    {
        let ghost ks = self.keys_view();
        let mut i: usize = 0;
        while i < self.keys.len()
            invariant
                self.limit == old(self).limit,
                self.next_id == old(self).next_id,
                ks == old(self).keys_view(),
                self.keys@.len() == ks.len(),
                i <= ks.len(),
                forall|j: int|
                    0 <= j < i ==> #[trigger] self.keys_view()[j] == edited_keys(ks, selector@, *edit)[j],
                forall|j: int| i <= j < ks.len() ==> #[trigger] self.keys_view()[j] == ks[j],
            decreases ks.len() - i,
        {
            let ghost before = self.keys_view();
            assert(before[i as int] == self.keys@[i as int]@);
            if selector.selects(&self.keys[i]) {
                let ds = apply_edit(&self.keys[i].domains, edit);
                let mut k = self.keys[i].duplicate();
                k.domains = ds;
                self.keys.set(i, k);
                assert(self.keys_view() =~= before.update(i as int, k@));
            }
            i = i + 1;
        }
        proof {
            assert(self.keys_view() =~= edited_keys(ks, selector@, *edit));
            lemma_edited_wf(ks, selector@, *edit, self.limit as int, self.next_id as int);
        }
    }

    /// Applies the edit to the domains of every key that the selector admits
    /// and gives back the first of them as changed.
    fn edit_selected(&mut self, selector: KeySelector, edit: &DomainEdit) -> (r: Result<
        StoredKey,
        PoolError,
    >)
        requires
            old(self).wf(),
        ensures
            final(self).wf(),
            final(self).limit == old(self).limit,
            final(self).next_id == old(self).next_id,
            match first_selected(old(self).keys_view(), selector@) {
                None => {
                    &&& r == Err::<StoredKey, PoolError>(PoolError::KeyNotFound(selector))
                    &&& final(self).keys_view() == old(self).keys_view()
                },
                Some(i) => {
                    &&& final(self).keys_view() == edited_keys(
                        old(self).keys_view(),
                        selector@,
                        *edit,
                    )
                    &&& r matches Ok(k) && k@ == final(self).keys_view()[i]
                },
            },
    {
        match self.find_selected(&selector) {
            None => Err(PoolError::KeyNotFound(selector)),
            Some(i) => {
                self.edit_all(&selector, edit);
                assert(self.keys_view()[i as int] == self.keys@[i as int]@);
                Ok(self.keys[i].duplicate())
            },
        }
    }

    /// Adds a domain to every key that the selector admits.
    pub fn add_domain_to_key(&mut self, selector: KeySelector, domain: Domain) -> (r: Result<
        StoredKey,
        PoolError,
    >)
        requires
            old(self).wf(),
        ensures
            final(self).wf(),
            final(self).limit == old(self).limit,
            final(self).next_id == old(self).next_id,
            match first_selected(old(self).keys_view(), selector@) {
                None => {
                    &&& r == Err::<StoredKey, PoolError>(PoolError::KeyNotFound(selector))
                    &&& final(self).keys_view() == old(self).keys_view()
                },
                Some(i) => {
                    &&& final(self).keys_view() == edited_keys(
                        old(self).keys_view(),
                        selector@,
                        DomainEdit::Add(domain),
                    )
                    &&& r matches Ok(k) && k@ == final(self).keys_view()[i]
                },
            },
    {
        self.edit_selected(selector, &DomainEdit::Add(domain))
    }

    /// Removes a domain from every key that the selector admits.
    pub fn remove_domain_from_key(&mut self, selector: KeySelector, domain: Domain) -> (r: Result<
        StoredKey,
        PoolError,
    >)
        requires
            old(self).wf(),
        ensures
            final(self).wf(),
            final(self).limit == old(self).limit,
            final(self).next_id == old(self).next_id,
            match first_selected(old(self).keys_view(), selector@) {
                None => {
                    &&& r == Err::<StoredKey, PoolError>(PoolError::KeyNotFound(selector))
                    &&& final(self).keys_view() == old(self).keys_view()
                },
                Some(i) => {
                    &&& final(self).keys_view() == edited_keys(
                        old(self).keys_view(),
                        selector@,
                        DomainEdit::Remove(domain),
                    )
                    &&& r matches Ok(k) && k@ == final(self).keys_view()[i]
                },
            },
    {
        self.edit_selected(selector, &DomainEdit::Remove(domain))
    }

    /// Replaces the domains of every key that the selector admits (repeats
    /// dropped).
    pub fn set_domains_for_key(&mut self, selector: KeySelector, domains: Vec<Domain>) -> (r: Result<
        StoredKey,
        PoolError,
    >)
        requires
            old(self).wf(),
        ensures
            final(self).wf(),
            final(self).limit == old(self).limit,
            final(self).next_id == old(self).next_id,
            match first_selected(old(self).keys_view(), selector@) {
                None => {
                    &&& r == Err::<StoredKey, PoolError>(PoolError::KeyNotFound(selector))
                    &&& final(self).keys_view() == old(self).keys_view()
                },
                Some(i) => {
                    &&& final(self).keys_view() == edited_keys(
                        old(self).keys_view(),
                        selector@,
                        DomainEdit::Replace(domains),
                    )
                    &&& r matches Ok(k) && k@ == final(self).keys_view()[i]
                },
            },
    {
        let edit = DomainEdit::Replace(domains);
        self.edit_selected(selector, &edit)
    }

    /// Puts every key that the selector admits on cooldown for `duration`
    /// seconds from `now`.
    pub fn timeout_key(&mut self, selector: &KeySelector, duration: u64, now: u64)
        requires
            old(self).wf(),
        ensures
            final(self).wf(),
            final(self).limit == old(self).limit,
            final(self).next_id == old(self).next_id,
            final(self).keys_view() == timed_out(
                old(self).keys_view(),
                selector@,
                expiry(now, duration),
            ),
    {
        let ghost ks = self.keys_view();
        let until: u64 = if duration > u64::MAX - now {
            u64::MAX
        } else {
            now + duration
        };
        let mut i: usize = 0;
        while i < self.keys.len()
            invariant
                self.limit == old(self).limit,
                self.next_id == old(self).next_id,
                ks == old(self).keys_view(),
                until == expiry(now, duration),
                self.keys@.len() == ks.len(),
                i <= ks.len(),
                forall|j: int|
                    0 <= j < i ==> #[trigger] self.keys_view()[j] == timed_out(ks, selector@, until)[j],
                forall|j: int| i <= j < ks.len() ==> #[trigger] self.keys_view()[j] == ks[j],
            decreases ks.len() - i,
        {
            let ghost before = self.keys_view();
            assert(before[i as int] == self.keys@[i as int]@);
            if selector.selects(&self.keys[i]) {
                let mut k = self.keys[i].duplicate();
                k.cooldown = Some(until);
                self.keys.set(i, k);
                assert(self.keys_view() =~= before.update(i as int, k@));
            }
            i = i + 1;
        }
        proof {
            assert(self.keys_view() =~= timed_out(ks, selector@, until));
            let ks2 = self.keys_view();
            assert forall|a: int, b: int|
                0 <= a < ks2.len() && 0 <= b < ks2.len() && a != b implies #[trigger] ks2[a].id
                != #[trigger] ks2[b].id && ks2[a].secret != ks2[b].secret by {
                assert(ks[a].id != ks[b].id);
            }
            assert forall|a: int| 0 <= a < ks2.len() implies {
                &&& 0 <= (#[trigger] ks2[a]).uses <= self.limit
                &&& 1 <= ks2[a].id < self.next_id
                &&& ks2[a].domains.no_duplicates()
            } by {
                assert(0 <= ks[a].uses <= self.limit);
            }
        }
    }
}

/// `a` followed by the domains of `b` that are not already present.
fn merge_into(a: &Vec<Domain>, b: &Vec<Domain>) -> (r: Vec<Domain>)
    ensures
        r@ == merge_domains(a@, b@),
{
    let mut r = copy_domains(a);
    let mut i: usize = 0;
    while i < b.len()
        invariant
            i <= b@.len(),
            r@ == merge_domains(a@, b@.subrange(0, i as int)),
        decreases b.len() - i,
    {
        assert(b@.subrange(0, i + 1).drop_last() =~= b@.subrange(0, i as int));
        if !contains_domain(&r, b[i]) {
            r.push(b[i]);
        }
        i = i + 1;
    }
    assert(b@.subrange(0, i as int) =~= b@);
    r
}

/// The domains after the edit.
fn apply_edit(ds: &Vec<Domain>, edit: &DomainEdit) -> (r: Vec<Domain>)
    ensures
        r@ == edited(ds@, *edit),
{
    match edit {
        DomainEdit::Add(d) => {
            let one = vec![*d];
            assert(one@ =~= seq![*d]);
            merge_into(ds, &one)
        },
        DomainEdit::Remove(d) => without_domain(ds, *d),
        DomainEdit::Replace(v) => merge_into(&Vec::new(), v),
    }
}

/// `ds` without `d`.
fn without_domain(ds: &Vec<Domain>, d: Domain) -> (r: Vec<Domain>)
    ensures
        r@ == without(ds@, d),
{
    let mut r: Vec<Domain> = Vec::new();
    let mut i: usize = 0;
    while i < ds.len()
        invariant
            i <= ds@.len(),
            r@ == without(ds@.subrange(0, i as int), d),
        decreases ds.len() - i,
    {
        assert(ds@.subrange(0, i + 1).drop_last() =~= ds@.subrange(0, i as int));
        if ds[i] != d {
            r.push(ds[i]);
        }
        i = i + 1;
    }
    assert(ds@.subrange(0, i as int) =~= ds@);
    r
}

/// A copy of a row of counters.
fn copy_counts(v: &Vec<i16>) -> (r: Vec<i16>)
    ensures
        r@ == v@,
{
    let mut r: Vec<i16> = Vec::new();
    let mut i: usize = 0;
    while i < v.len()
        invariant
            i <= v@.len(),
            r@ == v@.subrange(0, i as int),
        decreases v.len() - i,
    {
        r.push(v[i]);
        i = i + 1;
    }
    r
}

/// The first candidate of least usage.
fn least_index(u: &Vec<i16>, open: &Vec<bool>, limit: i16) -> (r: Option<usize>)
    requires
        u@.len() == open@.len(),
    ensures
        match least_candidate(counts(u@), open@, limit as int) {
            None => r is None,
            Some(i) => r == Some(i as usize),
        },
{
    let ghost cu = counts(u@);
    let mut best: Option<usize> = None;
    let mut i: usize = 0;
    while i < u.len()
        invariant
            i <= u@.len(),
            u@.len() == open@.len(),
            cu == counts(u@),
            match least_within(cu, open@, limit as int, i as nat) {
                None => best is None,
                Some(b) => best == Some(b as usize) && 0 <= b < i,
            },
        decreases u.len() - i,
    {
        let cand = open[i] && u[i] < limit;
        assert(cand == is_candidate(cu, open@, limit as int, i as int));
        match best {
            None => {
                if cand {
                    best = Some(i);
                }
            },
            Some(b) => {
                if cand && u[i] < u[b] {
                    best = Some(i);
                }
            },
        }
        i = i + 1;
    }
    best
}

} // verus!

verus! {

/// The operations that a store of keys offers the pool. Every operation
/// keeps the store well formed.
pub trait KeyPoolStorage: Sized {
    spec fn storage_wf(&self) -> bool;

    fn acquire_key(&mut self, selector: KeySelector, now: u64) -> (r: Result<StoredKey, PoolError>)
        requires
            old(self).storage_wf(),
        ensures
            final(self).storage_wf(),
    ;

    fn acquire_many_keys(&mut self, selector: KeySelector, number: usize, now: u64) -> (r: Result<
        Vec<StoredKey>,
        PoolError,
    >)
        requires
            old(self).storage_wf(),
        ensures
            final(self).storage_wf(),
            r matches Ok(v) ==> v@.len() <= number,
    ;

    fn store_key(&mut self, user_id: i32, key: String, domains: Vec<Domain>) -> (r: Result<
        StoredKey,
        PoolError,
    >)
        requires
            old(self).storage_wf(),
        ensures
            final(self).storage_wf(),
            r matches Ok(k) ==> k.key@ == key@,
    ;

    fn read_key(&self, selector: &KeySelector) -> (r: Option<StoredKey>)
        ensures
            r matches Some(k) ==> selects(selector@, k@),
    ;

    fn read_keys(&self, selector: &KeySelector) -> (r: Vec<StoredKey>)
        ensures
            forall|i: int| 0 <= i < r@.len() ==> selects(selector@, (#[trigger] r@[i])@),
    ;

    fn remove_key(&mut self, selector: KeySelector) -> (r: Result<StoredKey, PoolError>)
        requires
            old(self).storage_wf(),
        ensures
            final(self).storage_wf(),
    ;

    fn add_domain_to_key(&mut self, selector: KeySelector, domain: Domain) -> (r: Result<
        StoredKey,
        PoolError,
    >)
        requires
            old(self).storage_wf(),
        ensures
            final(self).storage_wf(),
            r matches Ok(k) ==> k.domains@.contains(domain),
    ;

    fn remove_domain_from_key(&mut self, selector: KeySelector, domain: Domain) -> (r: Result<
        StoredKey,
        PoolError,
    >)
        requires
            old(self).storage_wf(),
        ensures
            final(self).storage_wf(),
            r matches Ok(k) ==> !k.domains@.contains(domain),
    ;

    fn set_domains_for_key(&mut self, selector: KeySelector, domains: Vec<Domain>) -> (r: Result<
        StoredKey,
        PoolError,
    >)
        requires
            old(self).storage_wf(),
        ensures
            final(self).storage_wf(),
            r matches Ok(k) ==> k.domains@.to_set() == domains@.to_set(),
    ;

    fn timeout_key(&mut self, selector: &KeySelector, duration: u64, now: u64)
        requires
            old(self).storage_wf(),
        ensures
            final(self).storage_wf(),
    ;
}

proof fn lemma_without_excludes(ds: Seq<Domain>, d: Domain)
    ensures
        !without(ds, d).contains(d),
    decreases ds.len(),
{
    if ds.len() > 0 {
        lemma_without_excludes(ds.drop_last(), d);
        let r = without(ds.drop_last(), d);
        if ds.last() != d {
            assert forall|k: int| 0 <= k < r.push(ds.last()).len() implies r.push(ds.last())[k] != d by {
                if k < r.len() {
                    assert(r.push(ds.last())[k] == r[k]);
                }
            }
        }
    }
}

proof fn lemma_added_domain_present(ks: Seq<KeyView>, sel: SelectorView, d: Domain)
    requires
        forall|i: int| 0 <= i < ks.len() ==> (#[trigger] ks[i]).domains.no_duplicates(),
    ensures
        first_selected(ks, sel) matches Some(i) ==> edited_keys(ks, sel, DomainEdit::Add(d))[i].domains.contains(d),
{
    lemma_first_selected_selects(ks, sel);
    if let Some(i) = first_selected(ks, sel) {
        assert(ks[i].domains.no_duplicates());
        lemma_merge_domains(ks[i].domains, seq![d]);
        assert(seq![d].contains(d)) by {
            assert(seq![d][0] == d);
        }
    }
}

proof fn lemma_replaced_domains(ks: Seq<KeyView>, sel: SelectorView, ds: Vec<Domain>)
    ensures
        first_selected(ks, sel) matches Some(i) ==> edited_keys(
            ks,
            sel,
            DomainEdit::Replace(ds),
        )[i].domains.to_set() == ds@.to_set(),
{
    lemma_first_selected_selects(ks, sel);
    if let Some(i) = first_selected(ks, sel) {
        lemma_merge_domains(Seq::empty(), ds@);
        assert(Seq::<Domain>::empty().to_set().union(ds@.to_set()) =~= ds@.to_set());
    }
}

proof fn lemma_removed_domain_absent(ks: Seq<KeyView>, sel: SelectorView, d: Domain)
    ensures
        first_selected(ks, sel) matches Some(i) ==> !edited_keys(ks, sel, DomainEdit::Remove(d))[i].domains.contains(d),
{
    lemma_first_selected_selects(ks, sel);
    if let Some(i) = first_selected(ks, sel) {
        lemma_without_excludes(ks[i].domains, d);
    }
}

proof fn lemma_selected_selects(keys: Seq<KeyView>, s: SelectorView)
    ensures
        forall|i: int| 0 <= i < selected(keys, s).len() ==> selects(s, #[trigger] selected(keys, s)[i]),
    decreases keys.len(),
{
    if keys.len() > 0 {
        lemma_selected_selects(keys.drop_last(), s);
        let r = selected(keys.drop_last(), s);
        if selects(s, keys.last()) {
            assert forall|i: int| 0 <= i < r.push(keys.last()).len() implies selects(
                s,
                #[trigger] r.push(keys.last())[i],
            ) by {
                if i < r.len() {
                    assert(r.push(keys.last())[i] == r[i]);
                }
            }
        }
    }
}

proof fn lemma_first_selected_selects(keys: Seq<KeyView>, s: SelectorView)
    ensures
        first_selected(keys, s) matches Some(i) ==> 0 <= i < keys.len() && selects(s, keys[i]),
{
    if exists|i: int| 0 <= i < keys.len() && selects(s, #[trigger] keys[i]) {
        let w = choose|i: int| 0 <= i < keys.len() && selects(s, #[trigger] keys[i]);
        lemma_exists_first(keys, s, w);
    }
}

proof fn lemma_exists_first(keys: Seq<KeyView>, s: SelectorView, w: int)
    requires
        0 <= w < keys.len(),
        selects(s, keys[w]),
    ensures
        exists|i: int|
            0 <= i < keys.len() && selects(s, #[trigger] keys[i]) && forall|j: int|
                0 <= j < i ==> !selects(s, #[trigger] keys[j]),
    decreases w,
{
    if exists|j: int| 0 <= j < w && selects(s, #[trigger] keys[j]) {
        let v = choose|j: int| 0 <= j < w && selects(s, #[trigger] keys[j]);
        lemma_exists_first(keys, s, v);
    } else {
        assert(0 <= w < keys.len() && selects(s, keys[w]) && forall|j: int|
            0 <= j < w ==> !selects(s, #[trigger] keys[j]));
    }
}

impl KeyPoolStorage for KeyTable {
    open spec fn storage_wf(&self) -> bool {
        self.wf()
    }

    fn acquire_key(&mut self, selector: KeySelector, now: u64) -> (r: Result<StoredKey, PoolError>) {
        KeyTable::acquire_key(self, selector, now)
    }

    fn acquire_many_keys(&mut self, selector: KeySelector, number: usize, now: u64) -> (r: Result<
        Vec<StoredKey>,
        PoolError,
    >) {
        let ghost ks = self.keys_view();
        let ghost sel = selector@;
        let r = KeyTable::acquire_many_keys(self, selector, number, now);
        proof {
            if let Some(s) = resolve(ks, sel, now, self.limit as int) {
                lemma_water_fill_count(
                    usages(ks, now),
                    open_mask(ks, s, now),
                    self.limit as int,
                    number as nat,
                );
            }
        }
        r
    }

    fn store_key(&mut self, user_id: i32, key: String, domains: Vec<Domain>) -> (r: Result<
        StoredKey,
        PoolError,
    >) {
        KeyTable::store_key(self, user_id, key, domains)
    }

    fn read_key(&self, selector: &KeySelector) -> (r: Option<StoredKey>) {
        proof {
            lemma_first_selected_selects(self.keys_view(), selector@);
        }
        KeyTable::read_key(self, selector)
    }

    fn read_keys(&self, selector: &KeySelector) -> (r: Vec<StoredKey>) {
        proof {
            lemma_selected_selects(self.keys_view(), selector@);
        }
        let r = KeyTable::read_keys(self, selector);
        assert forall|i: int| 0 <= i < r@.len() implies selects(selector@, (#[trigger] r@[i])@) by {
            assert(views(r@)[i] == r@[i]@);
        }
        r
    }

    fn remove_key(&mut self, selector: KeySelector) -> (r: Result<StoredKey, PoolError>) {
        KeyTable::remove_key(self, selector)
    }

    fn add_domain_to_key(&mut self, selector: KeySelector, domain: Domain) -> (r: Result<
        StoredKey,
        PoolError,
    >) {
        let ghost ks = self.keys_view();
        let ghost sel = selector@;
        let r = KeyTable::add_domain_to_key(self, selector, domain);
        proof {
            lemma_added_domain_present(ks, sel, domain);
        }
        r
    }

    fn remove_domain_from_key(&mut self, selector: KeySelector, domain: Domain) -> (r: Result<
        StoredKey,
        PoolError,
    >) {
        let ghost ks = self.keys_view();
        let ghost sel = selector@;
        let r = KeyTable::remove_domain_from_key(self, selector, domain);
        proof {
            if let Some(i) = first_selected(ks, sel) {
                lemma_removed_domain_absent(ks, sel, domain);
            }
        }
        r
    }

    fn set_domains_for_key(&mut self, selector: KeySelector, domains: Vec<Domain>) -> (r: Result<
        StoredKey,
        PoolError,
    >) {
        let ghost ks = self.keys_view();
        let ghost sel = selector@;
        let ghost ds = domains;
        let r = KeyTable::set_domains_for_key(self, selector, domains);
        proof {
            lemma_replaced_domains(ks, sel, ds);
        }
        r
    }

    fn timeout_key(&mut self, selector: &KeySelector, duration: u64, now: u64) {
        KeyTable::timeout_key(self, selector, duration, now)
    }
}

} // verus!

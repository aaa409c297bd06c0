//! Stored keys, their mathematical form, and the rules that say when a key
//! is selected, cooling down, or charged.
use vstd::prelude::*;

use crate::domain::{alternatives_view, Domain, KeySelector, SelectorView};

verus! {

/// One credential of the pool with its usage in the current minute.
#[derive(Debug)]
pub struct StoredKey {
    pub id: i32,
    /// The principal that registered the key.
    pub user_id: i32,
    /// The secret sent to the upstream service; unique within a pool.
    pub key: String,
    /// Uses charged in the minute of `last_used`.
    pub uses: i16,
    pub domains: Vec<Domain>,
    /// Seconds since the epoch of the last charge.
    pub last_used: u64,
    /// While `now` is before this instant the key is not handed out.
    pub cooldown: Option<u64>,
}

/// The mathematical form of a stored key.
pub struct KeyView {
    pub id: i32,
    pub user_id: i32,
    pub secret: Seq<char>,
    pub uses: int,
    pub domains: Seq<Domain>,
    pub last_used: u64,
    pub cooldown: Option<u64>,
}

impl View for StoredKey {
    type V = KeyView;

    open spec fn view(&self) -> KeyView {
        KeyView {
            id: self.id,
            user_id: self.user_id,
            secret: self.key@,
            uses: self.uses as int,
            domains: self.domains@,
            last_used: self.last_used,
            cooldown: self.cooldown,
        }
    }
}

/// The first second of the minute that holds `t`.
pub open spec fn minute_start(t: u64) -> int {
    t - t % 60
}

/// Uses charged in the minute of `now`: a count from an earlier minute is void.
pub open spec fn effective_uses(k: KeyView, now: u64) -> int {
    if (k.last_used as int) < minute_start(now) {
        0
    } else {
        k.uses
    }
}

/// The key has a cooldown that has not yet expired at `now`.
pub open spec fn is_cooling(k: KeyView, now: u64) -> bool {
    match k.cooldown {
        Some(c) => now < c,
        None => false,
    }
}

/// Every domain of `want` is among `ds`.
pub open spec fn has_all(ds: Seq<Domain>, want: Seq<Domain>) -> bool {
    forall|i: int| 0 <= i < want.len() ==> ds.contains(#[trigger] want[i])
}

/// Every domain of at least one of the sets `alts` is among `ds`.
pub open spec fn has_one_of(ds: Seq<Domain>, alts: Seq<Seq<Domain>>) -> bool {
    exists|a: int| 0 <= a < alts.len() && #[trigger] has_all(ds, alts[a])
}

/// The selector admits the key.
pub open spec fn selects(s: SelectorView, k: KeyView) -> bool {
    match s {
        SelectorView::Key(secret) => k.secret == secret,
        SelectorView::Id(id) => k.id == id,
        SelectorView::UserId(user) => k.user_id == user,
        SelectorView::Has(ds) => has_all(k.domains, ds),
        SelectorView::OneOf(alts) => has_one_of(k.domains, alts),
    }
}

/// The key with its count set to `uses`, charged at `now`: its cooldown is
/// cleared.
pub open spec fn charged(k: KeyView, uses: int, now: u64) -> KeyView {
    KeyView { uses, last_used: now, cooldown: None, ..k }
}

/// Effective usage of each key.
pub open spec fn usages(keys: Seq<KeyView>, now: u64) -> Seq<int> {
    Seq::new(keys.len(), |i: int| effective_uses(keys[i], now))
}

/// Which keys the selector admits and are not cooling down.
pub open spec fn open_mask(keys: Seq<KeyView>, s: SelectorView, now: u64) -> Seq<bool> {
    Seq::new(keys.len(), |i: int| selects(s, keys[i]) && !is_cooling(keys[i], now))
}

pub(crate) fn contains_domain(ds: &Vec<Domain>, d: Domain) -> (r: bool)
    ensures
        r == ds@.contains(d),
{
    let mut i: usize = 0;
    while i < ds.len()
        invariant
            i <= ds@.len(),
            forall|j: int| 0 <= j < i ==> ds@[j] != d,
        decreases ds.len() - i,
    {
        if ds[i] == d {
            return true;
        }
        i = i + 1;
    }
    false
}

fn contains_all(ds: &Vec<Domain>, want: &Vec<Domain>) -> (r: bool)
    ensures
        r == has_all(ds@, want@),
{
    let mut i: usize = 0;
    while i < want.len()
        invariant
            i <= want@.len(),
            forall|j: int| 0 <= j < i ==> ds@.contains(#[trigger] want@[j]),
        decreases want.len() - i,
    {
        if !contains_domain(ds, want[i]) {
            return false;
        }
        i = i + 1;
    }
    true
}

impl StoredKey {
    /// A copy of the key.
    pub fn duplicate(&self) -> (r: StoredKey)
        ensures
            r@ == self@,
    {
        StoredKey {
            id: self.id,
            user_id: self.user_id,
            key: self.key.clone(),
            uses: self.uses,
            domains: copy_domains(&self.domains),
            last_used: self.last_used,
            cooldown: self.cooldown,
        }
    }

    /// Uses charged in the minute of `now`.
    pub fn effective_uses(&self, now: u64) -> (r: i16)
        ensures
            r == effective_uses(self@, now),
    {
        if self.last_used < now - now % 60 {
            0
        } else {
            self.uses
        }
    }

    /// The key has a cooldown that has not expired at `now`.
    pub fn is_cooling(&self, now: u64) -> (r: bool)
        ensures
            r == is_cooling(self@, now),
    {
        match self.cooldown {
            Some(c) => now < c,
            None => false,
        }
    }
}

/// A copy of a list of domains.
pub fn copy_domains(ds: &Vec<Domain>) -> (r: Vec<Domain>)
    ensures
        r@ == ds@,
{
    let mut r: Vec<Domain> = Vec::new();
    let mut i: usize = 0;
    while i < ds.len()
        invariant
            i <= ds@.len(),
            r@ == ds@.subrange(0, i as int),
        decreases ds.len() - i,
    {
        r.push(ds[i]);
        i = i + 1;
    }
    r
}

impl KeySelector {
    /// Every domain of at least one of the sets `alts` is among `ds`.
pub open spec fn has_one_of(ds: Seq<Domain>, alts: Seq<Seq<Domain>>) -> bool {
    exists|a: int| 0 <= a < alts.len() && #[trigger] has_all(ds, alts[a])
}

/// The selector admits the key.
    pub fn selects(&self, k: &StoredKey) -> (r: bool)
        ensures
            r == selects(self@, k@),
    {
        match self {
            KeySelector::Key(secret) => k.key == *secret,
            KeySelector::Id(id) => k.id == *id,
            KeySelector::UserId(user) => k.user_id == *user,
            KeySelector::Has(ds) => contains_all(&k.domains, ds),
            KeySelector::OneOf(alts) => {
                let ghost all = alternatives_view(alts@);
                let mut a: usize = 0;
                while a < alts.len()
                    invariant
                        a <= alts@.len(),
                        all == alternatives_view(alts@),
                        self@ == SelectorView::OneOf(all),
                        forall|b: int| 0 <= b < a ==> !has_all(k.domains@, #[trigger] all[b]),
                    decreases alts.len() - a,
                {
                    if contains_all(&k.domains, &alts[a]) {
                        assert(has_all(k@.domains, all[a as int]));
                        return true;
                    }
                    a = a + 1;
                }
                false
            },
        }
    }
}

} // verus!

verus! {

/// A type that identifies keys.
pub trait ApiKeyId {}

impl ApiKeyId for i32 {}

/// A credential that the pool hands out.
pub trait ApiKey {
    spec fn spec_id(&self) -> i32;

    spec fn spec_value(&self) -> Seq<char>;

    /// The secret sent to the upstream service.
    fn value(&self) -> (r: &str)
        ensures
            r@ == self.spec_value(),
    ;

    fn id(&self) -> (r: i32)
        ensures
            r == self.spec_id(),
    ;

    /// The selector that asks for exactly this key.
    fn selector(&self) -> (r: KeySelector)
        ensures
            r@ == SelectorView::Id(self.spec_id()),
    ;
}

impl ApiKey for StoredKey {
    open spec fn spec_id(&self) -> i32 {
        self.id
    }

    open spec fn spec_value(&self) -> Seq<char> {
        self.key@
    }

    fn value(&self) -> (r: &str) {
        self.key.as_str()
    }

    fn id(&self) -> (r: i32) {
        self.id
    }

    fn selector(&self) -> (r: KeySelector) {
        KeySelector::Id(self.id)
    }
}

} // verus!

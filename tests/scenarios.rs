use torn_key_pool::domain::{Domain, KeyDomain, KeySelector};
use torn_key_pool::error::{ApiError, PoolError};
use torn_key_pool::key::{ApiKey, StoredKey};
use torn_key_pool::pool::{
    assign_keys, dispatch_schedule, ErrorAction, KeyAction, PoolBuilder, PoolStep,
    RequestCategory, SendOutcome,
};
use torn_key_pool::request::ApiRequest;
use torn_key_pool::storage::KeyTable;
use torn_key_pool::IntoSelector;

/// The first second of a minute.
const MINUTE: u64 = 1_700_000_040;

fn all() -> KeySelector {
    KeySelector::Has(vec![Domain::All])
}

#[test]
fn scenario_single_key_limit_two() {
    let mut storage = KeyTable::new(2);
    let k1 = storage.store_key(1, "K1".to_owned(), vec![Domain::All]).unwrap();

    let a = storage.acquire_key(all(), MINUTE + 1).unwrap();
    let b = storage.acquire_key(all(), MINUTE + 30).unwrap();
    assert_eq!(a.id, k1.id);
    assert_eq!(b.id, k1.id);
    assert_eq!(b.uses, 2);

    let c = storage.acquire_key(all(), MINUTE + 59);
    assert_eq!(c.unwrap_err(), PoolError::Unavailable(all()));

    let d = storage.acquire_key(all(), MINUTE + 61).unwrap();
    assert_eq!(d.id, k1.id);
    assert_eq!(d.uses, 1);
    assert_eq!(d.last_used, MINUTE + 61);
}

#[test]
fn scenario_guild_falls_back_to_all() {
    let mut storage = KeyTable::new(10);
    let k2 = storage.store_key(2, "K2".to_owned(), vec![Domain::All]).unwrap();
    let got = storage
        .acquire_key(Domain::Guild { id: 7 }.into_selector(), MINUTE)
        .unwrap();
    assert_eq!(got.id, k2.id);
    assert_eq!(got.uses, 1);
}

#[test]
fn fallback_prefers_exact_domain() {
    let mut storage = KeyTable::new(10);
    storage.store_key(2, "K2".to_owned(), vec![Domain::All]).unwrap();
    let k1 = storage
        .store_key(1, "K1".to_owned(), vec![Domain::Guild { id: 7 }])
        .unwrap();
    let got = storage
        .acquire_key(Domain::Guild { id: 7 }.into_selector(), MINUTE)
        .unwrap();
    assert_eq!(got.id, k1.id);
}

#[test]
fn fallback_when_exact_key_is_exhausted() {
    let mut storage = KeyTable::new(1);
    let k2 = storage.store_key(2, "K2".to_owned(), vec![Domain::All]).unwrap();
    let k1 = storage
        .store_key(1, "K1".to_owned(), vec![Domain::Guild { id: 7 }])
        .unwrap();
    let sel = KeySelector::Has(vec![Domain::Guild { id: 7 }]);
    assert_eq!(storage.acquire_key(sel.clone(), MINUTE).unwrap().id, k1.id);
    assert_eq!(storage.acquire_key(sel.clone(), MINUTE).unwrap().id, k2.id);
    assert_eq!(
        storage.acquire_key(sel.clone(), MINUTE).unwrap_err(),
        PoolError::Unavailable(sel)
    );
}

#[test]
fn identity_selectors_do_not_fall_back() {
    assert_eq!(KeySelector::Id(3).fallback(), None);
    assert_eq!(KeySelector::Key("x".to_owned()).fallback(), None);
    assert_eq!(KeySelector::UserId(3).fallback(), None);
}

#[test]
fn selector_fallback_rules() {
    let has = KeySelector::Has(vec![Domain::Guild { id: 1 }, Domain::User { id: 2 }]);
    assert_eq!(has.fallback(), Some(KeySelector::Has(vec![Domain::All])));
    assert_eq!(KeySelector::Has(vec![Domain::All]).fallback(), None);
    let one_of = KeySelector::OneOf(vec![
        vec![Domain::User { id: 1 }],
        vec![Domain::Guild { id: 4 }, Domain::Guild { id: 5 }],
    ]);
    assert_eq!(
        one_of.fallback(),
        Some(KeySelector::OneOf(vec![vec![Domain::All, Domain::All]]))
    );
    assert_eq!(Domain::Guild { id: 9 }.fallback(), Some(Domain::All));
    assert_eq!(Domain::Faction { id: 9 }.fallback(), None);
}

#[test]
fn single_acquisition_charges_one_use() {
    let mut storage = KeyTable::new(5);
    storage.store_key(1, "A".to_owned(), vec![Domain::All]).unwrap();
    let first = storage.acquire_key(all(), MINUTE).unwrap();
    assert_eq!(first.uses, 1);
    assert_eq!(first.last_used, MINUTE);
    let second = storage.acquire_key(all(), MINUTE + 5).unwrap();
    assert_eq!(second.uses, 2);
    assert_eq!(second.last_used, MINUTE + 5);
}

#[test]
fn least_used_key_is_picked() {
    let mut storage = KeyTable::new(5);
    let a = storage.store_key(1, "A".to_owned(), vec![Domain::All]).unwrap();
    let b = storage.store_key(1, "B".to_owned(), vec![Domain::All]).unwrap();
    assert_eq!(storage.acquire_key(all(), MINUTE).unwrap().id, a.id);
    assert_eq!(storage.acquire_key(all(), MINUTE).unwrap().id, b.id);
    assert_eq!(storage.acquire_key(all(), MINUTE).unwrap().id, a.id);
}

#[test]
fn no_key_exceeds_limit_under_many_acquisitions() {
    let mut storage = KeyTable::new(3);
    for i in 0..4 {
        storage.store_key(1, format!("k{}", i), vec![Domain::All]).unwrap();
    }
    let mut ok = 0;
    for _ in 0..20 {
        if storage.acquire_key(all(), MINUTE).is_ok() {
            ok += 1;
        }
    }
    assert_eq!(ok, 12);
    for k in storage.read_keys(&all()) {
        assert!(k.uses <= 3);
    }
}

#[test]
fn bulk_acquisition_is_fair() {
    let mut storage = KeyTable::new(10);
    for i in 0..3 {
        storage.store_key(1, format!("k{}", i), vec![Domain::All]).unwrap();
    }
    let got = storage.acquire_many_keys(all(), 7, MINUTE).unwrap();
    assert_eq!(got.len(), 7);
    let uses: Vec<i16> = storage.read_keys(&all()).iter().map(|k| k.uses).collect();
    assert_eq!(uses, vec![3, 2, 2]);
}

#[test]
fn bulk_acquisition_tops_up_least_used_first() {
    let mut storage = KeyTable::new(10);
    storage.store_key(1, "a".to_owned(), vec![Domain::All]).unwrap();
    storage.store_key(1, "b".to_owned(), vec![Domain::All]).unwrap();
    storage.acquire_many_keys(KeySelector::Id(1), 3, MINUTE).unwrap();
    let got = storage.acquire_many_keys(all(), 4, MINUTE).unwrap();
    let ids: Vec<i32> = got.iter().map(|k| k.id).collect();
    assert_eq!(ids, vec![2, 2, 2, 1]);
}

#[test]
fn bulk_acquisition_stops_at_capacity() {
    let mut storage = KeyTable::new(2);
    storage.store_key(1, "a".to_owned(), vec![Domain::All]).unwrap();
    storage.store_key(1, "b".to_owned(), vec![Domain::All]).unwrap();
    let got = storage.acquire_many_keys(all(), 10, MINUTE).unwrap();
    assert_eq!(got.len(), 4);
    assert_eq!(
        storage.acquire_many_keys(all(), 1, MINUTE).unwrap_err(),
        PoolError::Unavailable(all())
    );
}

#[test]
fn upsert_merges_domains() {
    let mut storage = KeyTable::new(10);
    storage
        .store_key(1, "S".to_owned(), vec![Domain::All, Domain::User { id: 1 }])
        .unwrap();
    let k = storage
        .store_key(
            1,
            "S".to_owned(),
            vec![Domain::User { id: 1 }, Domain::Faction { id: 2 }, Domain::Faction { id: 2 }],
        )
        .unwrap();
    assert_eq!(
        k.domains,
        vec![Domain::All, Domain::User { id: 1 }, Domain::Faction { id: 2 }]
    );
    assert_eq!(storage.read_keys(&KeySelector::UserId(1)).len(), 1);
}

fn pool_with_one_key(limit: i16) -> (torn_key_pool::pool::KeyPool, StoredKey) {
    let mut storage = KeyTable::new(limit);
    let key = storage.store_key(1, "K".to_owned(), vec![Domain::All]).unwrap();
    let pool = PoolBuilder::new(storage).use_default_hooks().build();
    (pool, key)
}

#[test]
fn flag_with_removal_code_deletes_key() {
    let (mut pool, key) = pool_with_one_key(5);
    assert_eq!(pool.flag_key(key.id, 2, MINUTE), Ok(true));
    assert!(pool.storage.read_key(&KeySelector::Id(key.id)).is_none());
    assert_eq!(
        pool.storage.acquire_key(all(), MINUTE).unwrap_err(),
        PoolError::Unavailable(all())
    );
}

#[test]
fn flag_with_removal_falls_back() {
    let (mut pool, _) = pool_with_one_key(5);
    let guild = pool
        .storage
        .store_key(3, "G".to_owned(), vec![Domain::Guild { id: 7 }])
        .unwrap();
    assert_eq!(pool.flag_key(guild.id, 10, MINUTE), Ok(true));
    let got = pool
        .storage
        .acquire_key(KeySelector::Has(vec![Domain::Guild { id: 7 }]), MINUTE)
        .unwrap();
    assert_eq!(got.key, "K");
}

#[test]
fn flag_with_unregistered_code_surfaces() {
    let (mut pool, key) = pool_with_one_key(5);
    assert_eq!(pool.flag_key(key.id, 7, MINUTE), Ok(false));
    assert!(pool.storage.read_key(&KeySelector::Id(key.id)).is_some());
}

#[test]
fn flag_with_burst_code_cools_until_next_minute() {
    let (mut pool, key) = pool_with_one_key(5);
    assert_eq!(pool.flag_key(key.id, 5, MINUTE + 20), Ok(true));
    let k = pool.storage.read_key(&KeySelector::Id(key.id)).unwrap();
    assert_eq!(k.cooldown, Some(MINUTE + 60));
}

#[test]
fn flag_with_daily_code_cools_until_next_day() {
    let (mut pool, key) = pool_with_one_key(5);
    let now: u64 = 86_400 * 20_000 + 3_600;
    assert_eq!(pool.flag_key(key.id, 13, now), Ok(true));
    let k = pool.storage.read_key(&KeySelector::Id(key.id)).unwrap();
    assert_eq!(k.cooldown, Some(86_400 * 20_001));
}

#[test]
fn cooldown_withholds_key_until_it_expires() {
    let mut storage = KeyTable::new(5);
    let k = storage.store_key(1, "A".to_owned(), vec![Domain::All]).unwrap();
    storage.timeout_key(&k.selector(), 30, MINUTE);
    assert!(storage.acquire_key(all(), MINUTE + 29).is_err());
    let got = storage.acquire_key(all(), MINUTE + 30).unwrap();
    assert_eq!(got.id, k.id);
    assert_eq!(got.cooldown, None);
}

#[test]
fn outcome_transport_error_is_terminal() {
    let (mut pool, key) = pool_with_one_key(5);
    let step = pool.handle_outcome(&key, SendOutcome::Transport("reset".to_owned()), MINUTE);
    assert_eq!(step, PoolStep::Fail(PoolError::Transport("reset".to_owned())));
    assert!(pool.storage.read_key(&KeySelector::Id(key.id)).is_some());
}

#[test]
fn outcome_upstream_error_without_action_surfaces() {
    let (mut pool, key) = pool_with_one_key(5);
    let step = pool.handle_outcome(
        &key,
        SendOutcome::Upstream { code: 6, message: "Wrong ID value".to_owned() },
        MINUTE,
    );
    assert_eq!(step, PoolStep::Fail(PoolError::Api(ApiError::IncorrectId)));
}

#[test]
fn outcome_upstream_error_with_action_retries() {
    let (mut pool, key) = pool_with_one_key(5);
    let step = pool.handle_outcome(
        &key,
        SendOutcome::Upstream { code: 2, message: "Incorrect key".to_owned() },
        MINUTE,
    );
    assert_eq!(step, PoolStep::Retry);
    assert!(pool.storage.read_key(&KeySelector::Id(key.id)).is_none());
}

#[test]
fn outcome_response_actions() {
    let (mut pool, key) = pool_with_one_key(5);
    assert_eq!(
        pool.handle_outcome(&key, SendOutcome::Response(None), MINUTE),
        PoolStep::Deliver
    );
    assert_eq!(
        pool.handle_outcome(
            &key,
            SendOutcome::Response(Some(KeyAction::RemoveDomain(Domain::All))),
            MINUTE
        ),
        PoolStep::Retry
    );
    assert!(pool.storage.read_key(&KeySelector::Id(key.id)).unwrap().domains.is_empty());
    assert_eq!(
        pool.handle_outcome(&key, SendOutcome::Response(Some(KeyAction::Delete)), MINUTE),
        PoolStep::Retry
    );
    assert_eq!(
        pool.handle_outcome(&key, SendOutcome::Response(Some(KeyAction::Delete)), MINUTE),
        PoolStep::Fail(PoolError::KeyNotFound(KeySelector::Id(key.id)))
    );
}

#[test]
fn later_error_action_overrides_earlier() {
    let mut storage = KeyTable::new(5);
    let key = storage.store_key(1, "K".to_owned(), vec![Domain::All]).unwrap();
    let mut pool = PoolBuilder::new(storage)
        .use_default_hooks()
        .error_hook(2, ErrorAction::Surface)
        .build();
    assert_eq!(pool.flag_key(key.id, 2, MINUTE), Ok(false));
    assert_eq!(pool.flag_key(key.id, 99, MINUTE), Ok(false));
    let mut pool2 = PoolBuilder::new(KeyTable::new(5))
        .error_hook(40, ErrorAction::CooldownFor(15))
        .build();
    let k = pool2.storage.store_key(1, "Z".to_owned(), vec![]).unwrap();
    assert_eq!(pool2.flag_key(k.id, 40, MINUTE), Ok(true));
    assert_eq!(
        pool2.storage.read_key(&KeySelector::Id(k.id)).unwrap().cooldown,
        Some(MINUTE + 15)
    );
}

#[test]
fn prepare_request_adds_hook_parameters_and_comment() {
    let pool = PoolBuilder::new(KeyTable::new(5))
        .hook_before(RequestCategory::Faction, vec![("cat".to_owned(), "all".to_owned())])
        .hook_before(RequestCategory::User, vec![("x".to_owned(), "1".to_owned())])
        .comment("runner".to_owned())
        .build();
    let mut req = ApiRequest::new("/faction/crimes".to_owned());
    req.push_parameter("offset".to_owned(), "0".to_owned());
    let req = pool.prepare_request(RequestCategory::Faction, req);
    assert_eq!(
        req.url(),
        "https://api.torn.com/v2/faction/crimes?offset=0&cat=all&comment=runner"
    );
}

#[test]
fn shortfall_is_reported_per_request() {
    let mut storage = KeyTable::new(1);
    storage.store_key(1, "a".to_owned(), vec![Domain::All]).unwrap();
    let keys = storage.acquire_many_keys(all(), 3, MINUTE).unwrap();
    assert_eq!(keys.len(), 1);
    let paired = assign_keys(3, keys, &all());
    assert_eq!(paired.len(), 3);
    assert_eq!(paired[0].as_ref().unwrap().key, "a");
    assert_eq!(paired[1].as_ref().unwrap_err(), &PoolError::Unavailable(all()));
    assert_eq!(paired[2].as_ref().unwrap_err(), &PoolError::Unavailable(all()));
}

#[test]
fn throttled_dispatch_is_evenly_spaced() {
    assert_eq!(dispatch_schedule(4, 500), vec![0, 500, 1000, 1500]);
    assert!(dispatch_schedule(0, 500).is_empty());
}

use torn_key_pool::domain::{Domain, KeySelector};
use torn_key_pool::error::PoolError;
use torn_key_pool::key::{ApiKey, StoredKey};
use torn_key_pool::storage::{KeyPoolStorage, KeyTable};

const NOW: u64 = 1_700_000_000;

fn setup() -> (KeyTable, StoredKey) {
    let mut storage = KeyTable::new(1000);
    let key = storage
        .store_key(1, "AAAABBBBCCCCDDDD".to_owned(), vec![Domain::All])
        .unwrap();
    (storage, key)
}

#[test]
fn test_store_duplicate_key() {
    let (mut storage, key) = setup();
    let key = storage
        .store_key(1, key.key, vec![Domain::User { id: 1 }])
        .unwrap();
    assert_eq!(key.domains.len(), 2);
}

#[test]
fn test_store_duplicate_key_duplicate_domain() {
    let (mut storage, key) = setup();
    let key = storage.store_key(1, key.key, vec![Domain::All]).unwrap();
    assert_eq!(key.domains.len(), 1);
}

#[test]
fn test_add_domain() {
    let (mut storage, key) = setup();
    let key = storage
        .add_domain_to_key(KeySelector::Key(key.key), Domain::User { id: 12345 })
        .unwrap();
    assert!(key.domains.contains(&Domain::User { id: 12345 }));
}

#[test]
fn test_add_domain_id() {
    let (mut storage, key) = setup();
    let key = storage
        .add_domain_to_key(KeySelector::Id(key.id), Domain::User { id: 12345 })
        .unwrap();
    assert!(key.domains.contains(&Domain::User { id: 12345 }));
}

#[test]
fn test_add_duplicate_domain() {
    let (mut storage, key) = setup();
    let key = storage
        .add_domain_to_key(KeySelector::Key(key.key), Domain::All)
        .unwrap();
    assert_eq!(
        key.domains.into_iter().filter(|d| *d == Domain::All).count(),
        1
    );
}

#[test]
fn test_remove_domain() {
    let (mut storage, key) = setup();
    storage
        .add_domain_to_key(KeySelector::Key(key.key.clone()), Domain::User { id: 1 })
        .unwrap();
    let key = storage
        .remove_domain_from_key(KeySelector::Key(key.key.clone()), Domain::User { id: 1 })
        .unwrap();
    assert_eq!(key.domains, vec![Domain::All]);
}

#[test]
fn test_remove_domain_id() {
    let (mut storage, key) = setup();
    storage
        .add_domain_to_key(KeySelector::Id(key.id), Domain::User { id: 1 })
        .unwrap();
    let key = storage
        .remove_domain_from_key(KeySelector::Id(key.id), Domain::User { id: 1 })
        .unwrap();
    assert_eq!(key.domains, vec![Domain::All]);
}

#[test]
fn test_remove_last_domain() {
    let (mut storage, key) = setup();
    let key = storage
        .remove_domain_from_key(KeySelector::Key(key.key), Domain::All)
        .unwrap();
    assert!(key.domains.is_empty());
}

#[test]
fn test_store_key() {
    let (mut storage, _) = setup();
    let key = storage
        .store_key(1, "ABCDABCDABCDABCD".to_owned(), vec![])
        .unwrap();
    assert_eq!(key.value(), "ABCDABCDABCDABCD");
}

#[test]
fn test_read_user_keys() {
    let (storage, _) = setup();
    let keys = storage.read_keys(&KeySelector::UserId(1));
    assert_eq!(keys.len(), 1);
}

#[test]
fn acquire_one() {
    let (mut storage, _) = setup();
    if let Err(e) = storage.acquire_key(KeySelector::Has(vec![Domain::All]), NOW) {
        panic!("Acquiring key failed: {:?}", e);
    }
}

#[test]
fn uses_spread() {
    let (mut storage, _) = setup();
    storage
        .store_key(1, "ABC".to_owned(), vec![Domain::All])
        .unwrap();

    for _ in 0..10 {
        _ = storage
            .acquire_key(KeySelector::Has(vec![Domain::All]), NOW)
            .unwrap();
    }

    let keys = storage.read_keys(&KeySelector::UserId(1));
    assert_eq!(keys.len(), 2);
    for key in keys {
        assert_eq!(key.uses, 5);
    }
}

#[test]
fn acquire_many() {
    let (mut storage, _) = setup();
    match storage.acquire_many_keys(KeySelector::Has(vec![Domain::All]), 30, NOW) {
        Err(e) => panic!("Acquiring key failed: {:?}", e),
        Ok(keys) => assert_eq!(keys.len(), 30),
    }
}

#[test]
fn test_concurrent() {
    let (mut storage, _) = setup();
    for round in 0..10u64 {
        let now = NOW - NOW % 60 + round * 60;
        for _ in 0..100 {
            storage
                .acquire_key(KeySelector::Has(vec![Domain::All]), now)
                .unwrap();
        }
        let keys = storage.read_keys(&KeySelector::UserId(1));
        assert_eq!(keys[0].uses, 100);
    }
}

#[test]
fn test_concurrent_spread() {
    let (mut storage, _) = setup();
    for i in 0..24 {
        storage
            .store_key(1, format!("{}", i), vec![Domain::All])
            .unwrap();
    }
    for round in 0..10u64 {
        let now = NOW - NOW % 60 + round * 60;
        for _ in 0..50 {
            storage
                .acquire_key(KeySelector::Has(vec![Domain::All]), now)
                .unwrap();
        }
        let keys = storage.read_keys(&KeySelector::UserId(1));
        assert_eq!(keys.len(), 25);
        for key in keys {
            assert_eq!(key.uses, 2);
        }
    }
}

#[test]
fn test_concurrent_many() {
    let (mut storage, _) = setup();
    for round in 0..10u64 {
        let now = NOW - NOW % 60 + round * 60;
        for _ in 0..100 {
            storage
                .acquire_many_keys(KeySelector::Has(vec![Domain::All]), 5, now)
                .unwrap();
        }
        let keys = storage.read_keys(&KeySelector::UserId(1));
        assert_eq!(keys[0].uses, 500);
    }
}

#[test]
fn read_key() {
    let (storage, key) = setup();
    let key = storage.read_key(&KeySelector::Key(key.key));
    assert!(key.is_some());
}

#[test]
fn read_key_id() {
    let (storage, key) = setup();
    let key = storage.read_key(&KeySelector::Id(key.id));
    assert!(key.is_some());
}

#[test]
fn read_nonexistent_key() {
    let (storage, _) = setup();
    let key = storage.read_key(&KeySelector::Id(-1));
    assert!(key.is_none());
}

#[test]
fn query_key() {
    let (storage, _) = setup();
    let key = storage.read_key(&KeySelector::Has(vec![Domain::All]));
    assert!(key.is_some());
}

#[test]
fn query_nonexistent_key() {
    let (storage, _) = setup();
    let key = storage.read_key(&KeySelector::Has(vec![Domain::Guild { id: 0 }]));
    assert!(key.is_none());
}

#[test]
fn query_all() {
    let (storage, _) = setup();
    let keys = storage.read_keys(&KeySelector::Has(vec![Domain::All]));
    assert!(keys.len() == 1);
}

#[test]
fn query_by_id() {
    let (storage, _) = setup();
    let key = storage.read_key(&KeySelector::Id(1));
    assert!(key.is_some());
}

#[test]
fn query_by_key() {
    let (storage, key) = setup();
    let key = storage.read_key(&KeySelector::Key(key.key));
    assert!(key.is_some());
}

#[test]
fn timeout() {
    let (mut storage, key) = setup();
    storage.timeout_key(&key.selector(), 60, NOW);
    let stored = storage.read_key(&KeySelector::Id(key.id)).unwrap();
    assert_eq!(stored.cooldown, Some(NOW + 60));
}

#[test]
fn query_by_set() {
    let (storage, _key) = setup();
    let key = storage.read_key(&KeySelector::OneOf(vec![
        vec![Domain::All],
        vec![Domain::Guild { id: 0 }],
        vec![Domain::Faction { id: 0 }],
    ]));
    assert!(key.is_some());
}

#[test]
fn all_selector() {
    let (mut storage, key) = setup();
    storage
        .add_domain_to_key(key.selector(), Domain::Faction { id: 1 })
        .unwrap();

    let key = storage.read_key(&KeySelector::Has(vec![Domain::Faction { id: 1 }, Domain::All]));
    assert!(key.is_some());

    let key = storage.read_key(&KeySelector::Has(vec![Domain::All, Domain::Faction { id: 1 }]));
    assert!(key.is_some());

    let key = storage.read_key(&KeySelector::Has(vec![
        Domain::All,
        Domain::Faction { id: 2 },
        Domain::Faction { id: 1 },
    ]));
    assert!(key.is_none());
}

#[test]
fn remove_missing_key_is_not_found() {
    let (mut storage, _) = setup();
    let r = storage.remove_key(KeySelector::Id(42));
    assert_eq!(r.unwrap_err(), PoolError::KeyNotFound(KeySelector::Id(42)));
}

#[test]
fn edit_missing_key_is_not_found() {
    let (mut storage, _) = setup();
    let r = storage.set_domains_for_key(KeySelector::UserId(9), vec![Domain::All]);
    assert_eq!(r.unwrap_err(), PoolError::KeyNotFound(KeySelector::UserId(9)));
}

#[test]
fn set_domains_drops_repeats() {
    let (mut storage, key) = setup();
    let k = storage
        .set_domains_for_key(
            KeySelector::Id(key.id),
            vec![Domain::User { id: 3 }, Domain::User { id: 3 }, Domain::All],
        )
        .unwrap();
    assert_eq!(k.domains, vec![Domain::User { id: 3 }, Domain::All]);
}

#[test]
fn remove_key_deletes_every_match() {
    let (mut storage, _) = setup();
    storage.store_key(2, "B".to_owned(), vec![Domain::All]).unwrap();
    storage.store_key(1, "C".to_owned(), vec![]).unwrap();
    let first = storage.remove_key(KeySelector::UserId(1)).unwrap();
    assert_eq!(first.key, "AAAABBBBCCCCDDDD");
    let left = storage.read_keys(&KeySelector::Has(vec![]));
    assert_eq!(left.len(), 1);
    assert_eq!(left[0].key, "B");
}

#[test]
fn ids_are_assigned_in_order() {
    let (mut storage, key) = setup();
    let second = storage.store_key(5, "X".to_owned(), vec![]).unwrap();
    assert_eq!(key.id, 1);
    assert_eq!(second.id, 2);
    assert_eq!(second.uses, 0);
    assert_eq!(second.user_id, 5);
}

fn acquire_through_interface<S: KeyPoolStorage>(s: &mut S) -> usize {
    let one = KeyPoolStorage::acquire_key(s, KeySelector::Has(vec![Domain::All]), NOW).is_ok();
    let many = KeyPoolStorage::acquire_many_keys(s, KeySelector::Has(vec![Domain::All]), 3, NOW)
        .map(|v| v.len())
        .unwrap_or(0);
    usize::from(one) + many
}

#[test]
fn storage_interface_forwards_to_table() {
    let (mut storage, _) = setup();
    assert_eq!(acquire_through_interface(&mut storage), 4);
    let k = KeyPoolStorage::read_key(&storage, &KeySelector::Id(1)).unwrap();
    assert_eq!(k.uses, 4);
}

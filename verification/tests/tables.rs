use bytes::Bytes;
use rust_udcn::cs::{ContentStore, CsEntry};
use rust_udcn::error::Error;
use rust_udcn::fib::Fib;
use rust_udcn::name::Name;
use rust_udcn::ndn::Data;
use rust_udcn::pit::{PendingInterestTable, PitOutcome};
use rust_udcn::table::Table;
use rust_udcn::types::{
    has_lapsed, is_entry_expired, is_pit_entry_expired, CsKey, CsValue, FaceId, FaceType, FibKey,
    FibValue, ForwardInfo, PitKey, PitValue, XdpAction, MAX_CS_ENTRIES, MAX_FIB_ENTRIES,
    MAX_PIT_ENTRIES,
};

fn name(text: &str) -> Name {
    Name::from_string(text).unwrap()
}

fn pit_key(name_hash: u32, nonce: u32) -> PitKey {
    PitKey {
        name_hash,
        name_len: 2,
        nonce,
    }
}

fn pit_value(face: u16, timestamp: u64) -> PitValue {
    PitValue {
        face_id: FaceId(face),
        timestamp,
        lifetime_ms: 4000,
        name_component_count: 2,
    }
}

#[test]
fn fib_longest_prefix_wins() {
    let mut fib = Fib::new();
    fib.add_route(&name("/a"), FaceId(1), 10).unwrap();
    fib.add_route(&name("/a/b"), FaceId(2), 20).unwrap();
    assert_eq!(
        fib.lookup(&name("/a/b/c")),
        Some(FibValue {
            face_id: FaceId(2),
            cost: 20
        })
    );
    assert_eq!(
        fib.lookup(&name("/a/x")),
        Some(FibValue {
            face_id: FaceId(1),
            cost: 10
        })
    );
    assert_eq!(
        fib.get_route(&name("/a/b/c")),
        Some(FibValue {
            face_id: FaceId(2),
            cost: 20
        })
    );
    assert_eq!(
        fib.get_route(&name("/a/x")),
        Some(FibValue {
            face_id: FaceId(1),
            cost: 10
        })
    );
    assert!(fib.remove_route(&name("/a/b")));
    assert_eq!(fib.find_next_hop(&name("/a/b/c")), Some(FaceId(1)));
    assert_eq!(fib.longest_prefix_match(&name("/a/b/c")), Ok(FaceId(1)));
    assert_eq!(
        fib.get_route(&name("/a/b/c")),
        Some(FibValue {
            face_id: FaceId(1),
            cost: 10
        })
    );
    assert_eq!(fib.get_route(&name("/b")), None);
}

#[test]
fn fib_no_route_and_empty_prefix() {
    let mut fib = Fib::new();
    assert_eq!(fib.lookup(&name("/a")), None);
    assert_eq!(fib.longest_prefix_match(&name("/a")), Err(Error::NotFound));
    fib.add_route(&Name::new(), FaceId(7), 1).unwrap();
    assert_eq!(fib.find_next_hop(&name("/anything/at/all")), Some(FaceId(7)));
    assert_eq!(fib.find_next_hop(&Name::new()), Some(FaceId(7)));
}

#[test]
fn fib_adding_a_longer_prefix_never_shortens_a_match() {
    let mut fib = Fib::new();
    fib.add_route(&name("/a"), FaceId(1), 1).unwrap();
    assert_eq!(fib.find_next_hop(&name("/a/b/c")), Some(FaceId(1)));
    fib.add_route(&name("/a/b/c/d"), FaceId(4), 1).unwrap();
    assert_eq!(fib.find_next_hop(&name("/a/b/c")), Some(FaceId(1)));
    fib.add_route(&name("/a/b"), FaceId(2), 1).unwrap();
    assert_eq!(fib.find_next_hop(&name("/a/b/c")), Some(FaceId(2)));
    fib.add_route(&name("/z"), FaceId(9), 1).unwrap();
    assert_eq!(fib.find_next_hop(&name("/a/b/c")), Some(FaceId(2)));
}

#[test]
fn fib_management_api() {
    let mut fib = Fib::with_capacity(2);
    assert_eq!(fib.count_entries(), 0);
    fib.add_route(&name("/a"), FaceId(1), 10).unwrap();
    fib.add_route(&name("/b"), FaceId(2), 20).unwrap();
    assert_eq!(
        fib.add_route(&name("/c"), FaceId(3), 30),
        Err(Error::CapacityExceeded)
    );
    assert_eq!(fib.count_entries(), 2);
    assert_eq!(fib.get_route(&name("/c")), None);
    fib.add_route(&name("/a"), FaceId(5), 50).unwrap();
    assert_eq!(
        fib.get_route(&name("/a")),
        Some(FibValue {
            face_id: FaceId(5),
            cost: 50
        })
    );
    assert_eq!(
        fib.get_route(&name("/a/deeper/name")),
        Some(FibValue {
            face_id: FaceId(5),
            cost: 50
        })
    );
    assert!(fib.has_entry(&Fib::key_for(&name("/b"))));
    assert!(!fib.has_entry(&Fib::key_for(&name("/a/deeper/name"))));
    let mut routes = fib.get_all_entries();
    routes.sort_by_key(|r| r.1.face_id.0);
    assert_eq!(
        routes,
        vec![
            (
                Fib::key_for(&name("/b")),
                FibValue {
                    face_id: FaceId(2),
                    cost: 20
                }
            ),
            (
                Fib::key_for(&name("/a")),
                FibValue {
                    face_id: FaceId(5),
                    cost: 50
                }
            )
        ]
    );
    assert!(!fib.remove_route(&name("/nothing")));
    assert!(fib.remove_route(&name("/b")));
    assert!(!fib.remove_route(&name("/b")));
    assert_eq!(fib.count_entries(), 1);
    assert_eq!(
        Fib::key_for(&name("/foo/bar")),
        FibKey {
            prefix_hash: 0xbf9cf968,
            prefix_len: 2
        }
    );
}

#[test]
fn pit_holds_one_record_per_key() {
    let mut pit = PendingInterestTable::new();
    let key = pit_key(5, 42);
    assert_eq!(
        pit.insert(&key, &pit_value(1, 100)),
        PitOutcome::Inserted { evicted: None }
    );
    assert_eq!(pit.insert(&key, &pit_value(2, 200)), PitOutcome::Duplicate);
    assert_eq!(pit.add_entry(&key, &pit_value(2, 200)), PitOutcome::Duplicate);
    assert_eq!(pit.count_entries(), 1);
    assert_eq!(pit.get(&key), Some(pit_value(1, 100)));
    assert_eq!(pit.get_pit_face_id(&key), Ok(FaceId(1)));
    assert!(pit.has_duplicate(&key));
    let entries = pit.get_all_entries();
    assert_eq!(entries, vec![(key, pit_value(1, 100))]);
    assert_eq!(pit.remove(&key), Some(pit_value(1, 100)));
    assert_eq!(pit.remove(&key), None);
    assert_eq!(pit.get_pit_face_id(&key), Err(Error::NotFound));
}

#[test]
fn pit_evicts_least_recently_used_when_full() {
    let mut pit = PendingInterestTable::with_capacity(2);
    pit.insert(&pit_key(1, 1), &pit_value(1, 0));
    pit.insert(&pit_key(2, 2), &pit_value(2, 0));
    assert_eq!(
        pit.insert(&pit_key(3, 3), &pit_value(3, 0)),
        PitOutcome::Inserted {
            evicted: Some(pit_key(1, 1))
        }
    );
    assert_eq!(pit.count_entries(), 2);
    assert!(!pit.has_duplicate(&pit_key(1, 1)));
    assert!(pit.has_duplicate(&pit_key(2, 2)));
    assert!(pit.has_duplicate(&pit_key(3, 3)));
}

#[test]
fn pit_without_room_is_full() {
    let mut pit = PendingInterestTable::with_capacity(0);
    assert_eq!(
        pit.add_pit_entry(&pit_key(1, 1), &pit_value(1, 0)),
        PitOutcome::Full
    );
    assert_eq!(pit.count_entries(), 0);
}

#[test]
fn pit_matching_takes_all_nonces_of_a_name() {
    let mut pit = PendingInterestTable::new();
    pit.insert(&pit_key(7, 1), &pit_value(1, 0));
    pit.insert(&pit_key(8, 1), &pit_value(9, 0));
    pit.insert(&pit_key(7, 2), &pit_value(2, 0));
    assert!(pit.is_awaited(7, 2));
    assert!(!pit.is_awaited(7, 3));
    assert_eq!(pit.count_entries(), 3);
    let mut taken = pit.find_matching_interests(7, 2);
    taken.sort_by_key(|r| r.0.nonce);
    assert_eq!(
        taken,
        vec![(pit_key(7, 1), pit_value(1, 0)), (pit_key(7, 2), pit_value(2, 0))]
    );
    assert_eq!(pit.count_entries(), 1);
    assert!(!pit.is_awaited(7, 2));
    assert!(pit.find_matching_interests(7, 2).is_empty());
}

#[test]
fn pit_expiry() {
    let mut pit = PendingInterestTable::new();
    pit.insert(&pit_key(1, 1), &pit_value(1, 1000));
    pit.insert(&pit_key(2, 2), &pit_value(2, 3000));
    assert!(!pit.expire(&pit_key(1, 1), 5000));
    assert!(!pit.expire(&pit_key(9, 9), 5001));
    assert_eq!(pit.cleanup_expired_entries(5000), 0);
    assert_eq!(pit.cleanup_expired_entries(5001), 1);
    assert!(!pit.has_duplicate(&pit_key(1, 1)));
    assert!(pit.expire(&pit_key(2, 2), 7001));
    assert_eq!(pit.count_entries(), 0);
}

#[test]
fn expiry_is_strictly_after_the_span() {
    assert!(!has_lapsed(1000, 4000, 5000));
    assert!(has_lapsed(1000, 4000, 5001));
    assert!(!has_lapsed(1000, 4000, 10));
    let record = CsValue {
        content_hash: 0,
        timestamp: 50,
        content_size: 1,
        ttl_ms: 100,
    };
    assert!(!is_entry_expired(&record, 150));
    assert!(is_entry_expired(&record, 151));
    assert!(!is_pit_entry_expired(&pit_value(1, 50), 4050));
    assert!(is_pit_entry_expired(&pit_value(1, 50), 4051));
}

#[test]
fn cs_lookup_purges_lapsed_records() {
    let mut cs = ContentStore::new();
    let data = Data::new(name("/a/b"), Bytes::from_static(b"hello")).with_ttl(60000);
    assert_eq!(cs.store(&data, 1000), Ok(None));
    let key = ContentStore::key_for(&name("/a/b"));
    assert_eq!(
        key,
        CsKey {
            name_hash: name("/a/b").hash(),
            name_len: 2
        }
    );
    assert_eq!(
        cs.get(&key),
        Some(CsValue {
            content_hash: 0x4f9f2cab,
            timestamp: 1000,
            content_size: 5,
            ttl_ms: 60000
        })
    );
    let hit = cs.lookup(&key, 61000).unwrap();
    assert_eq!(hit.content.as_ref(), b"hello");
    assert_eq!(hit.name, name("/a/b"));
    assert_eq!(cs.count_entries(), 1);
    assert!(cs.lookup(&key, 61001).is_none());
    assert_eq!(cs.count_entries(), 0);
    assert_eq!(cs.get(&key), None);
}

#[test]
fn cs_evicts_least_recently_used() {
    let mut cs = ContentStore::with_capacity(2);
    let a = Data::new(name("/a"), Bytes::from_static(b"1"));
    let b = Data::new(name("/b"), Bytes::from_static(b"2"));
    let c = Data::new(name("/c"), Bytes::from_static(b"3"));
    cs.store(&a, 0).unwrap();
    cs.store(&b, 0).unwrap();
    assert!(cs.lookup(&ContentStore::key_for(&name("/a")), 1).is_some());
    assert_eq!(
        cs.store(&c, 2),
        Ok(Some(ContentStore::key_for(&name("/b"))))
    );
    assert!(cs.lookup(&ContentStore::key_for(&name("/a")), 3).is_some());
    assert!(cs.lookup(&ContentStore::key_for(&name("/b")), 3).is_none());
    assert!(cs.lookup(&ContentStore::key_for(&name("/c")), 3).is_some());
    let stats = cs.get_stats(5, 3);
    assert_eq!(stats.hits, 5);
    assert_eq!(stats.inserts, 3);
    assert_eq!(stats.capacity, 2);
    assert_eq!(stats.size, 2);
}

#[test]
fn cs_management_api() {
    let mut cs = ContentStore::with_capacity(0);
    let a = Data::new(name("/a"), Bytes::from_static(b"1"));
    assert_eq!(cs.store(&a, 0), Err(Error::CapacityExceeded));
    let mut cs = ContentStore::new();
    let key = ContentStore::key_for(&name("/a"));
    let meta = CsValue {
        content_hash: 9,
        timestamp: 10,
        content_size: 1,
        ttl_ms: 5,
    };
    assert_eq!(cs.insert(&key, CsEntry { meta, data: a }), Ok(None));
    assert_eq!(cs.get(&key), Some(meta));
    assert_eq!(cs.cleanup_expired_entries(15), 0);
    assert_eq!(cs.cleanup_expired_entries(16), 1);
    let b = Data::new(name("/b"), Bytes::from_static(b"2"));
    cs.store(&b, 0).unwrap();
    assert!(cs.remove(&ContentStore::key_for(&name("/b"))));
    assert!(!cs.remove(&ContentStore::key_for(&name("/b"))));
    cs.store(&b, 0).unwrap();
    cs.clear();
    assert_eq!(cs.count_entries(), 0);
    assert_eq!(cs.get_stats(0, 0).capacity, MAX_CS_ENTRIES);
}

#[test]
fn table_touch_changes_the_victim() {
    let mut table: Table<FibKey, u32> = Table::new(2);
    let k = |h: u32| FibKey {
        prefix_hash: h,
        prefix_len: 0,
    };
    assert_eq!(table.insert(k(1), 10), Ok(None));
    assert_eq!(table.insert(k(2), 20), Ok(None));
    assert!(table.touch(&k(1)));
    assert!(!table.touch(&k(9)));
    assert_eq!(table.insert(k(3), 30), Ok(Some(k(2))));
    assert_eq!(table.get(&k(1)), Some(&10));
    assert_eq!(table.get(&k(2)), None);
    assert_eq!(table.insert(k(1), 11), Ok(None));
    assert_eq!(table.get(&k(1)), Some(&11));
    assert_eq!(table.len(), 2);
    assert_eq!(table.limit(), 2);
    assert_eq!(table.try_insert(k(4), 40), Err(Error::CapacityExceeded));
    assert_eq!(table.try_insert(k(3), 31), Ok(()));
    let mut keys = table.keys();
    keys.sort_by_key(|key| key.prefix_hash);
    assert_eq!(keys, vec![k(1), k(3)]);
    let removed = table.remove_all(&vec![k(1), k(7), k(1)]);
    assert_eq!(removed, vec![(k(1), 11)]);
    assert_eq!(table.remove(&k(3)), Some(31));
    assert!(!table.contains(&k(3)));
    let mut none: Table<FibKey, u32> = Table::new(0);
    assert_eq!(none.insert(k(1), 1), Err(Error::CapacityExceeded));
}

#[test]
fn record_types_and_codes() {
    assert_eq!(MAX_FIB_ENTRIES, 1024);
    assert_eq!(MAX_PIT_ENTRIES, 2048);
    assert_eq!(MAX_CS_ENTRIES, 4096);
    assert_eq!(FaceType::NetDevice.code(), 0);
    assert_eq!(FaceType::App.code(), 1);
    assert_eq!(FaceType::Quic.code(), 2);
    assert_eq!(XdpAction::Aborted.code(), 0);
    assert_eq!(XdpAction::Drop.code(), 1);
    assert_eq!(XdpAction::Pass.code(), 2);
    assert_eq!(XdpAction::Tx.code(), 3);
    assert_eq!(XdpAction::Redirect.code(), 4);
    let info = ForwardInfo::new([1; 16], [2; 16], 6363, 4000);
    assert_eq!(info.dst_addr(), [1; 16]);
    assert_eq!(info.src_addr(), [2; 16]);
    assert_eq!(info.dst_port, 6363);
    assert_eq!(info.src_port, 4000);
}

#[test]
fn pit_match_removes_what_it_matched() {
    let mut pit = PendingInterestTable::new();
    pit.insert(&pit_key(7, 1), &pit_value(1, 0));
    pit.insert(&pit_key(8, 1), &pit_value(9, 0));
    pit.insert(&pit_key(7, 2), &pit_value(2, 0));
    assert!(!pit.has_matching_interest(7, 3));
    assert_eq!(pit.count_entries(), 3);
    assert!(pit.has_matching_interest(7, 2));
    assert_eq!(pit.count_entries(), 1);
    assert!(pit.has_duplicate(&pit_key(8, 1)));
    assert!(!pit.has_matching_interest(7, 2));
    assert_eq!(pit.count_entries(), 1);
}

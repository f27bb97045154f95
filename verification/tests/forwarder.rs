use bytes::{Bytes, BytesMut};
use rust_udcn::forwarder::{DataDecision, DropReason, Forwarder, InterestDecision};
use rust_udcn::name::Name;
use rust_udcn::ndn::{Data, Interest};
use rust_udcn::types::{FaceId, XdpAction};

fn name(text: &str) -> Name {
    Name::from_string(text).unwrap()
}

fn interest(text: &str, nonce: u32) -> Interest {
    Interest::new(name(text))
        .with_nonce(nonce)
        .with_lifetime(4000)
}

fn balanced(f: &Forwarder) {
    let m = &f.metrics;
    assert_eq!(
        m.cs_hits.value() + m.cs_misses.value(),
        m.interests_received.value()
            - m.interests_duplicate.value()
            - m.interests_dropped_other.value()
    );
    assert!(m.pit_matches.value() <= m.pit_inserts.value());
    assert_eq!(m.pit_size.value(), f.pit.count_entries() as u64);
    assert_eq!(m.cs_size.value(), f.cs.count_entries() as u64);
    assert_eq!(m.fib_size.value(), f.fib.count_entries() as u64);
}

#[test]
fn stored_data_answers_a_fresh_interest() {
    let mut f = Forwarder::new();
    f.add_route(&name("/a"), FaceId(9), 1).unwrap();
    assert!(matches!(
        f.on_interest(&interest("/a/b", 1), FaceId(1), 0),
        InterestDecision::Forward {
            next_hop: FaceId(9)
        }
    ));
    let data = Data::new(name("/a/b"), Bytes::from_static(b"hello")).with_ttl(60000);
    assert!(matches!(
        f.on_data(&data, FaceId(9), 10),
        DataDecision::Forward { .. }
    ));
    let hits = f.metrics.cs_hits.value();
    let lookups = f.metrics.fib_lookups.value();
    let fresh = interest("/a/b", 2).with_must_be_fresh(true);
    match f.on_interest(&fresh, FaceId(4), 20) {
        InterestDecision::SatisfiedByCs { data, face } => {
            assert_eq!(data.content.as_ref(), b"hello");
            assert_eq!(data.name, name("/a/b"));
            assert_eq!(face, FaceId(4));
        }
        other => panic!("expected a hit, got {:?}", other),
    }
    assert_eq!(f.metrics.cs_hits.value(), hits + 1);
    assert_eq!(f.metrics.fib_lookups.value(), lookups);
    assert_eq!(f.pit.count_entries(), 0);
    balanced(&f);
}

#[test]
fn data_reaches_every_pending_face_once() {
    let mut f = Forwarder::new();
    f.add_route(&name("/x"), FaceId(30), 1).unwrap();
    assert!(matches!(
        f.on_interest(&interest("/x/y", 100), FaceId(1), 0),
        InterestDecision::Forward { .. }
    ));
    assert!(matches!(
        f.on_interest(&interest("/x/y", 200), FaceId(2), 0),
        InterestDecision::Forward { .. }
    ));
    assert_eq!(f.pit.count_entries(), 2);
    let matches_before = f.metrics.pit_matches.value();
    let data = Data::new(name("/x/y"), Bytes::from_static(b"payload"));
    match f.on_data(&data, FaceId(3), 5) {
        DataDecision::Forward { pending } => {
            let mut faces: Vec<u16> = pending.iter().map(|r| r.1.face_id.0).collect();
            faces.sort();
            assert_eq!(faces, vec![1, 2]);
        }
        other => panic!("expected the Data to be forwarded, got {:?}", other),
    }
    assert_eq!(f.metrics.pit_matches.value(), matches_before + 2);
    assert_eq!(f.cs.count_entries(), 1);
    assert!(f
        .cs
        .get(&rust_udcn::cs::ContentStore::key_for(&name("/x/y")))
        .is_some());
    assert_eq!(f.pit.count_entries(), 0);
    let key = rust_udcn::cs::ContentStore::key_for(&name("/x/y"));
    assert!(!f.pit.is_awaited(key.name_hash, key.name_len));
    assert_eq!(f.metrics.cs_inserts.value(), 1);
    balanced(&f);
}

#[test]
fn second_interest_with_same_nonce_is_dropped() {
    let mut f = Forwarder::new();
    let face_out = FaceId(77);
    f.add_route(&name("/r"), face_out, 1).unwrap();
    let before = f.pit.count_entries();
    match f.on_interest(&interest("/r/1", 42), FaceId(1), 0) {
        InterestDecision::Forward { next_hop } => assert_eq!(next_hop, face_out),
        other => panic!("expected a forward, got {:?}", other),
    }
    assert_eq!(f.pit.count_entries(), before + 1);
    assert_eq!(f.metrics.interests_forwarded.value(), 1);
    assert_eq!(f.metrics.fib_hits.value(), 1);
    let duplicates = f.metrics.interests_duplicate.value();
    assert!(matches!(
        f.on_interest(&interest("/r/1", 42), FaceId(1), 1),
        InterestDecision::Dropped(DropReason::Duplicate)
    ));
    assert_eq!(f.metrics.interests_duplicate.value(), duplicates + 1);
    assert_eq!(f.pit.count_entries(), before + 1);
    balanced(&f);
}

#[test]
fn interest_without_route_leaves_no_record() {
    let mut f = Forwarder::new();
    assert!(matches!(
        f.on_interest(&interest("/nowhere", 1), FaceId(1), 0),
        InterestDecision::Dropped(DropReason::NoRoute)
    ));
    assert_eq!(f.pit.count_entries(), 0);
    assert_eq!(f.metrics.interests_dropped_other.value(), 1);
    assert_eq!(f.metrics.pit_inserts.value(), 1);
    assert_eq!(f.metrics.fib_lookups.value(), 1);
    assert_eq!(f.metrics.fib_hits.value(), 0);
    balanced(&f);
}

#[test]
fn unsolicited_data_is_dropped_and_not_stored() {
    let mut f = Forwarder::new();
    let data = Data::new(name("/u"), Bytes::from_static(b"x"));
    assert!(matches!(
        f.on_data(&data, FaceId(1), 0),
        DataDecision::Dropped(DropReason::Unsolicited)
    ));
    assert_eq!(f.cs.count_entries(), 0);
    assert_eq!(f.metrics.data_received.value(), 1);
    assert_eq!(f.metrics.cs_inserts.value(), 0);
    balanced(&f);
}

#[test]
fn pit_without_room_drops_the_interest() {
    let mut f = Forwarder::with_capacities(4, 0, 4);
    f.add_route(&name("/a"), FaceId(2), 1).unwrap();
    assert!(matches!(
        f.on_interest(&interest("/a", 1), FaceId(1), 0),
        InterestDecision::Dropped(DropReason::PitFull)
    ));
    assert_eq!(f.metrics.interests_dropped_other.value(), 1);
    assert_eq!(f.metrics.pit_inserts.value(), 0);
    balanced(&f);
}

#[test]
fn lapsed_pending_interest_is_no_duplicate_and_gets_no_data() {
    let mut f = Forwarder::new();
    f.add_route(&name("/a"), FaceId(2), 1).unwrap();
    assert!(matches!(
        f.on_interest(&interest("/a", 1), FaceId(1), 0),
        InterestDecision::Forward { .. }
    ));
    assert!(matches!(
        f.on_interest(&interest("/a", 1), FaceId(1), 4001),
        InterestDecision::Forward { .. }
    ));
    assert_eq!(f.metrics.pit_expirations.value(), 1);
    assert_eq!(f.pit.count_entries(), 1);
    let data = Data::new(name("/a"), Bytes::from_static(b"late"));
    assert!(matches!(
        f.on_data(&data, FaceId(2), 9000),
        DataDecision::Dropped(DropReason::Unsolicited)
    ));
    assert_eq!(f.metrics.pit_expirations.value(), 2);
    assert_eq!(f.metrics.pit_matches.value(), 0);
    assert_eq!(f.pit.count_entries(), 0);
    balanced(&f);
}

#[test]
fn stale_store_record_is_a_miss() {
    let mut f = Forwarder::new();
    f.add_route(&name("/a"), FaceId(2), 1).unwrap();
    f.on_interest(&interest("/a", 1), FaceId(1), 0);
    let data = Data::new(name("/a"), Bytes::from_static(b"v")).with_ttl(100);
    f.on_data(&data, FaceId(2), 10);
    assert!(matches!(
        f.on_interest(&interest("/a", 2), FaceId(1), 110),
        InterestDecision::SatisfiedByCs { .. }
    ));
    assert!(matches!(
        f.on_interest(&interest("/a", 3), FaceId(1), 111),
        InterestDecision::Forward { .. }
    ));
    assert_eq!(f.cs.count_entries(), 0);
    assert_eq!(f.metrics.cs_hits.value(), 1);
    assert_eq!(f.metrics.cs_misses.value(), 2);
    balanced(&f);
}

#[test]
fn route_management_keeps_the_gauge() {
    let mut f = Forwarder::with_capacities(1, 1, 1);
    f.add_route(&name("/a"), FaceId(1), 1).unwrap();
    assert!(f.add_route(&name("/b"), FaceId(1), 1).is_err());
    assert_eq!(f.metrics.fib_size.value(), 1);
    assert!(f.remove_route(&name("/a")));
    assert!(!f.remove_route(&name("/a")));
    assert_eq!(f.metrics.fib_size.value(), 0);
    balanced(&f);
}

#[test]
fn drop_reasons_have_names() {
    assert_eq!(DropReason::Duplicate.as_str(), "duplicate");
    assert_eq!(DropReason::PitFull.as_str(), "pit_full");
    assert_eq!(DropReason::NoRoute.as_str(), "no_route");
    assert_eq!(DropReason::Unsolicited.as_str(), "unsolicited");
}

fn frame_with(payload: &[u8], dst_port: u16) -> Vec<u8> {
    let mut frame = vec![0u8; 62];
    frame[12] = 0x86;
    frame[13] = 0xdd;
    frame[20] = 17;
    frame[54] = 0x12;
    frame[55] = 0x34;
    frame[56] = (dst_port >> 8) as u8;
    frame[57] = (dst_port & 0xff) as u8;
    let length = (payload.len() + 8) as u16;
    frame[58] = (length >> 8) as u8;
    frame[59] = (length & 0xff) as u8;
    frame.extend_from_slice(payload);
    frame
}

#[test]
fn fast_path_actions() {
    let mut f = Forwarder::new();
    f.add_route(&name("/a"), FaceId(2), 1).unwrap();
    let mut wire = BytesMut::new();
    interest("/a/b", 9).encode(&mut wire).unwrap();
    let frame = frame_with(&wire, 6363);
    assert_eq!(f.process_frame(&frame, 0x0001_0005, 0), XdpAction::Pass);
    assert_eq!(f.pit.get_all_entries()[0].1.face_id, FaceId(5));
    assert_eq!(f.process_frame(&frame, 5, 1), XdpAction::Drop);
    assert_eq!(f.metrics.interests_duplicate.value(), 1);

    let mut wire = BytesMut::new();
    Data::new(name("/a/b"), Bytes::from_static(b"d"))
        .encode(&mut wire)
        .unwrap();
    assert_eq!(f.process_frame(&frame_with(&wire, 6363), 6, 2), XdpAction::Pass);
    assert_eq!(f.process_frame(&frame_with(&wire, 6363), 6, 3), XdpAction::Drop);

    let packets = f.metrics.packets_total.value();
    assert_eq!(f.process_frame(&frame_with(&wire, 53), 6, 4), XdpAction::Pass);
    assert_eq!(f.process_frame(&[0u8; 10], 6, 4), XdpAction::Pass);
    assert_eq!(
        f.process_frame(&frame_with(&[0x05, 9, 1], 6363), 6, 4),
        XdpAction::Drop
    );
    assert_eq!(f.metrics.packets_total.value(), packets);
    balanced(&f);
}

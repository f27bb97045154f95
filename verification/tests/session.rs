use bytes::Bytes;
use rust_udcn::config::{
    alpn, idle_timeout_setting, ClientOptions, ServerOptions, TransportConfig, TransportMode,
    XdpAttachFlags, XdpAttachMode, DEFAULT_FRAGMENT_SIZE, DEFAULT_INTEREST_TIMEOUT_MS,
    NDN_QUIC_PORT,
};
use rust_udcn::error::Error;
use rust_udcn::face::{Face, FaceEvent, Inbound};
use rust_udcn::metrics::UdcnMetrics;
use rust_udcn::name::Name;
use rust_udcn::ndn::{Data, Interest, InterestResult};
use rust_udcn::packet::NdnPacket;
use rust_udcn::transport::{FaceNumbers, FaceRegistry, TransportEvent};
use rust_udcn::types::FaceId;
use std::collections::VecDeque;

fn name(text: &str) -> Name {
    Name::from_string(text).unwrap()
}

fn frames_of(packet: &NdnPacket) -> VecDeque<Bytes> {
    Face::new("sender".to_string())
        .outbound_frames(packet)
        .unwrap()
        .into()
}

#[test]
fn elapsed_waiter_is_removed_and_counted() {
    let mut face = Face::new("quic:peer".to_string());
    let mut metrics = UdcnMetrics::new();
    let interest = Interest::new(name("/missing"));
    let (id, frames) = face.begin_interest(&interest, &mut metrics).unwrap();
    assert_eq!(frames.len(), 1);
    assert_eq!(face.pending_count(), 1);
    assert_eq!(metrics.interests_sent.value(), 1);
    assert!(face.on_timeout(id, &mut metrics));
    assert_eq!(metrics.interests_timed_out.value(), 1);
    assert_eq!(metrics.interests_satisfied.value(), 0);
    assert_eq!(face.pending_count(), 0);
    assert!(!face.on_timeout(id, &mut metrics));
    assert_eq!(metrics.interests_timed_out.value(), 1);
    let late = NdnPacket::Data(Data::new(name("/missing"), Bytes::from_static(b"late")));
    match face.on_frame(frames_of(&late), &mut metrics) {
        Inbound::Data { fulfilled, .. } => assert!(fulfilled.is_empty()),
        other => panic!("expected a Data, got {:?}", other),
    }
    assert_eq!(metrics.interests_satisfied.value(), 0);
    assert_eq!(metrics.interests_timed_out.value(), 1);
}

#[test]
fn large_data_survives_fragmentation() {
    let content: Vec<u8> = (0..9500u32).map(|i| (i % 251) as u8).collect();
    let data = Data::new(name("/big"), Bytes::from(content.clone()));
    let packet = NdnPacket::Data(data);
    let wire_size = packet.size().unwrap();
    assert_eq!(wire_size, 1 + 3 + (2 + 2 + 3) + (1 + 3 + 9500));

    let mut client = Face::new("client".to_string());
    let mut metrics = UdcnMetrics::new();
    let (id, _) = client
        .begin_interest(&Interest::new(name("/big")), &mut metrics)
        .unwrap();

    let server = Face::new("server".to_string());
    let frames = server.outbound_frames(&packet).unwrap();
    assert_eq!(frames.len(), 10);
    assert!(frames.iter().all(|f| f.len() <= DEFAULT_FRAGMENT_SIZE));
    assert_eq!(frames[0].len(), 1000);
    assert_eq!(frames[9].len(), wire_size - 9000);

    let before = metrics.bytes_received.value();
    match client.on_frame(frames.into(), &mut metrics) {
        Inbound::Data { data, fulfilled } => {
            assert_eq!(data.content.as_ref(), &content[..]);
            assert_eq!(data.name, name("/big"));
            assert_eq!(fulfilled, vec![id]);
        }
        other => panic!("expected the Data, got {:?}", other),
    }
    assert_eq!(metrics.bytes_received.value(), before + wire_size as u64);
    assert_eq!(metrics.data_received.value(), 1);
    assert_eq!(metrics.interests_satisfied.value(), 1);
    assert_eq!(metrics.interests_timed_out.value(), 0);
    assert_eq!(client.pending_count(), 0);
}

#[test]
fn first_data_fulfils_all_waiters_of_a_name_once() {
    let mut face = Face::new("f".to_string());
    let a = face.register(&name("/same")).unwrap();
    let other = face.register(&name("/other")).unwrap();
    let b = face.register(&name("/same")).unwrap();
    assert_eq!((a, other, b), (0, 1, 2));
    assert_eq!(face.fulfil(&name("/same")), vec![a, b]);
    assert_eq!(face.fulfil(&name("/same")), Vec::<u64>::new());
    assert_eq!(face.pending_count(), 1);
    assert!(face.cancel(other));
    assert!(!face.cancel(other));
}

#[test]
fn closed_face_rejects_sends_and_notifies_waiters() {
    let mut face = Face::new("f".to_string());
    let mut metrics = UdcnMetrics::new();
    let a = face.register(&name("/a")).unwrap();
    let b = face.register(&name("/b")).unwrap();
    assert!(!face.is_closed());
    assert_eq!(face.close(), vec![a, b]);
    assert!(face.is_closed());
    assert_eq!(face.close(), Vec::<u64>::new());
    assert_eq!(face.pending_count(), 0);
    assert!(matches!(
        face.register(&name("/c")),
        Err(Error::NetworkError(_))
    ));
    let interest = Interest::new(name("/c"));
    assert!(matches!(
        face.begin_interest(&interest, &mut metrics),
        Err(Error::NetworkError(_))
    ));
    assert_eq!(metrics.interests_sent.value(), 0);
    assert!(matches!(
        face.outbound_frames(&NdnPacket::Interest(interest)),
        Err(Error::NetworkError(_))
    ));
}

#[test]
fn inbound_interest_and_malformed_frame() {
    let mut face = Face::new("f".to_string());
    let mut metrics = UdcnMetrics::new();
    let packet = NdnPacket::Interest(Interest::new(name("/in")).with_nonce(5));
    let size = packet.size().unwrap() as u64;
    match face.on_frame(frames_of(&packet), &mut metrics) {
        Inbound::Interest(i) => assert_eq!(i.nonce, 5),
        other => panic!("expected an Interest, got {:?}", other),
    }
    assert_eq!(metrics.interests_received.value(), 1);
    assert_eq!(metrics.bytes_received.value(), size);
    let mut junk = VecDeque::new();
    junk.push_back(Bytes::from_static(&[0x05, 200]));
    junk.push_back(Bytes::from_static(&[1, 2, 3]));
    assert!(matches!(
        face.on_frame(junk, &mut metrics),
        Inbound::Malformed
    ));
    assert_eq!(metrics.bytes_received.value(), size + 5);
    assert!(matches!(
        face.on_frame(VecDeque::new(), &mut metrics),
        Inbound::Malformed
    ));
    assert_eq!(metrics.interests_received.value(), 1);
}

#[test]
fn registry_resolves_faces_by_identifier() {
    let mut registry = FaceRegistry::new();
    assert_eq!(registry.select(None), Err(Error::NotFound));
    assert_eq!(registry.select(Some("quic:a")), Err(Error::NotFound));
    assert!(matches!(
        registry.add(Face::new("quic:a".to_string())),
        TransportEvent::FaceCreated(id) if id == "quic:a"
    ));
    registry.add(Face::new("quic:b".to_string()));
    registry.add(Face::new("quic:b".to_string()));
    assert_eq!(registry.len(), 3);
    assert_eq!(registry.select(None), Ok(0));
    assert_eq!(registry.find("quic:b"), Some(1));
    assert_eq!(registry.select(Some("quic:b")), Ok(1));
    assert_eq!(registry.find("quic:c"), None);
    assert_eq!(registry.face(1).id(), "quic:b");

    let token = registry.face_mut(1).register(&name("/w")).unwrap();
    let (event, told) = registry.remove(1);
    assert!(matches!(event, TransportEvent::FaceClosed(id) if id == "quic:b"));
    assert_eq!(told, vec![token]);
    assert_eq!(registry.len(), 2);
    assert_eq!(registry.find("quic:b"), Some(1));
    registry.remove(1);
    assert_eq!(registry.find("quic:b"), None);
}

#[test]
fn face_events_become_transport_events() {
    let interest = Interest::new(name("/e")).with_nonce(3);
    assert!(matches!(
        FaceRegistry::report(FaceEvent::InterestReceived(interest), "f1"),
        TransportEvent::InterestReceived { interest, face_id } if interest.nonce == 3 && face_id == "f1"
    ));
    let data = Data::new(name("/e"), Bytes::from_static(b"v"));
    assert!(matches!(
        FaceRegistry::report(FaceEvent::DataReceived(data), "f2"),
        TransportEvent::DataReceived { data, face_id } if data.content.as_ref() == b"v" && face_id == "f2"
    ));
    assert!(matches!(
        FaceRegistry::report(FaceEvent::Closed, "f3"),
        TransportEvent::FaceClosed(id) if id == "f3"
    ));
    assert!(matches!(
        FaceRegistry::report(FaceEvent::Error("boom".to_string()), "f4"),
        TransportEvent::Error(m) if m == "Face f4: boom"
    ));
}

#[test]
fn configuration_defaults() {
    assert_eq!(NDN_QUIC_PORT, 6367);
    assert_eq!(&alpn(), b"ndn1");
    assert_eq!(DEFAULT_INTEREST_TIMEOUT_MS, 4000);
    let server = ServerOptions::default();
    assert_eq!(server.listen_addr, "0.0.0.0:6367");
    assert_eq!(server.cert_path, "cert.pem");
    assert_eq!(server.key_path, "key.pem");
    assert_eq!(server.idle_timeout_ms, Some(30000));
    assert_eq!(server.keep_alive_interval_ms, Some(5000));
    assert_eq!(server.max_connections, Some(1000));
    let client = ClientOptions::default();
    assert_eq!(client.ca_cert_path, None);
    assert_eq!(client.idle_timeout_ms, Some(30000));
    assert_eq!(client.keep_alive_interval_ms, Some(5000));
    assert!(client.verify_certificate);
    let config = TransportConfig::default();
    assert_eq!(config.mode, TransportMode::Client);
    assert!(config.server_options.is_none());
    assert_eq!(config.event_buffer_size, 100);
    assert_eq!(config.interest_timeout_ms, 4000);
    assert_eq!(config.timeout_for(None), 4000);
    assert_eq!(config.timeout_for(Some(200)), 200);
    assert!(config.needs_client() && !config.needs_server());
    assert_eq!(config.validate(), Ok(()));
}

#[test]
fn server_mode_needs_server_options() {
    let mut config = TransportConfig::default();
    config.mode = TransportMode::Server;
    assert_eq!(config.validate(), Err(Error::ConfigError));
    assert!(!config.needs_client() && config.needs_server());
    config.mode = TransportMode::Dual;
    assert_eq!(config.validate(), Err(Error::ConfigError));
    config.server_options = Some(ServerOptions::default());
    assert_eq!(config.validate(), Ok(()));
    assert!(config.needs_client() && config.needs_server());
}

#[test]
fn idle_timeout_and_attach_mode() {
    assert_eq!(idle_timeout_setting(None), None);
    assert_eq!(idle_timeout_setting(Some(30000)), Some(30000));
    assert_eq!(idle_timeout_setting(Some(0x1_0000_0005)), Some(5));
    assert_eq!(XdpAttachFlags::default().mode(), XdpAttachMode::Driver);
    let skb = XdpAttachFlags {
        offload: false,
        skb_mode: true,
    };
    assert_eq!(skb.mode(), XdpAttachMode::Skb);
    let both = XdpAttachFlags {
        offload: true,
        skb_mode: true,
    };
    assert_eq!(both.mode(), XdpAttachMode::Hardware);
}

#[test]
fn closing_the_registry_tells_every_waiter() {
    let mut registry = FaceRegistry::new();
    registry.add(Face::new("a".to_string()));
    registry.add(Face::new("b".to_string()));
    registry.add(Face::new("c".to_string()));
    let a0 = registry.face_mut(0).register(&name("/x")).unwrap();
    let a1 = registry.face_mut(0).register(&name("/y")).unwrap();
    let c0 = registry.face_mut(2).register(&name("/x")).unwrap();
    registry.face_mut(2).close();
    assert_eq!(registry.close_all(), vec![vec![a0, a1], vec![], vec![]]);
    assert_eq!(c0, 0);
    assert!(registry.face(0).is_closed());
    assert!(registry.face(1).is_closed());
    assert_eq!(registry.face(0).pending_count(), 0);
    assert_eq!(registry.close_all(), vec![Vec::<u64>::new(), vec![], vec![]]);
    assert_eq!(registry.len(), 3);
}

#[test]
fn how_an_expressed_interest_ends() {
    let data = Data::new(name("/d"), Bytes::from_static(b"v"));
    assert_eq!(
        InterestResult::Data(data).into_result().unwrap().content.as_ref(),
        b"v"
    );
    assert_eq!(
        InterestResult::Timeout.into_result().err(),
        Some(Error::Timeout)
    );
    assert_eq!(
        InterestResult::Dropped("no_route".to_string())
            .into_result()
            .err(),
        Some(Error::NetworkError("no_route".to_string()))
    );
    assert_eq!(
        InterestResult::NetworkError("closed".to_string())
            .into_result()
            .err(),
        Some(Error::NetworkError("closed".to_string()))
    );
}

#[test]
fn faces_keep_their_numbers() {
    let mut numbers = FaceNumbers::new();
    assert_eq!(numbers.lookup("quic:a"), None);
    assert_eq!(numbers.name_of(FaceId(0)), None);
    assert_eq!(numbers.number_for("quic:a"), Ok(FaceId(0)));
    assert_eq!(numbers.number_for("quic:b"), Ok(FaceId(1)));
    assert_eq!(numbers.number_for("quic:a"), Ok(FaceId(0)));
    assert_eq!(numbers.lookup("quic:b"), Some(FaceId(1)));
    assert_eq!(numbers.name_of(FaceId(1)), Some("quic:b"));
    assert_eq!(numbers.name_of(FaceId(2)), None);
}

#[test]
fn packets_sent_without_waiting_are_counted() {
    let face = Face::new("f".to_string());
    let mut metrics = UdcnMetrics::new();
    let data = NdnPacket::Data(Data::new(name("/d"), Bytes::from_static(b"v")));
    let size = data.size().unwrap() as u64;
    let frames = face.begin_packet(&data, &mut metrics).unwrap();
    assert_eq!(frames.len(), 1);
    assert_eq!(metrics.data_sent.value(), 1);
    assert_eq!(metrics.bytes_sent.value(), size);
    let interest = NdnPacket::Interest(Interest::new(name("/i")));
    let more = interest.size().unwrap() as u64;
    face.begin_packet(&interest, &mut metrics).unwrap();
    assert_eq!(metrics.data_sent.value(), 1);
    assert_eq!(metrics.interests_sent.value(), 0);
    assert_eq!(metrics.bytes_sent.value(), size + more);
    let mut closed = Face::new("c".to_string());
    closed.close();
    assert!(matches!(
        closed.begin_packet(&data, &mut metrics),
        Err(Error::NetworkError(_))
    ));
    assert_eq!(metrics.bytes_sent.value(), size + more);
}

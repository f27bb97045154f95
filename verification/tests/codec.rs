use bytes::{Bytes, BytesMut};
use rust_udcn::error::Error;
use rust_udcn::name::{Name, NameComponent};
use rust_udcn::ndn::{Data, Interest};
use rust_udcn::packet::NdnPacket;
use rust_udcn::tlv::{
    decode_tlv_length, decode_tlv_type, encode_tlv_length, encode_tlv_type, parse_tlv,
    tlv_length_size, TlvElement,
};

#[test]
fn test_name_creation() {
    let name = Name::from_string("/test/data/1").unwrap();
    assert_eq!(name.components().len(), 3);
    assert_eq!(name.components()[0].as_bytes().as_ref(), b"test");
    assert_eq!(name.components()[1].as_bytes().as_ref(), b"data");
    assert_eq!(name.components()[2].as_bytes().as_ref(), b"1");
    assert_eq!(name.to_string(), "/test/data/1");
}

#[test]
fn test_name_compare() {
    let name1 = Name::from_string("/a/b/c").unwrap();
    let name2 = Name::from_string("/a/b/c").unwrap();
    let name3 = Name::from_string("/a/b/d").unwrap();
    let name4 = Name::from_string("/a/b").unwrap();

    assert_eq!(name1, name2);
    assert_ne!(name1, name3);
    assert_ne!(name1, name4);

    assert!(name4.is_prefix_of(&name1));
    assert!(!name1.is_prefix_of(&name4));
    assert!(!name3.is_prefix_of(&name1));
}

#[test]
fn test_interest_packet() {
    let name = Name::from_string("/test/interest").unwrap();
    let interest = Interest::new(name.clone())
        .with_can_be_prefix(true)
        .with_must_be_fresh(true)
        .with_nonce(42)
        .with_lifetime(4000);

    assert_eq!(interest.name(), &name);
    assert_eq!(interest.can_be_prefix, true);
    assert_eq!(interest.must_be_fresh, true);
    assert_eq!(interest.nonce, 42);
    assert_eq!(interest.lifetime_ms, 4000);

    let mut wire = BytesMut::new();
    interest.encode(&mut wire).unwrap();
    let parsed = Interest::decode(&wire).unwrap();

    assert_eq!(parsed.name(), &name);
    assert_eq!(parsed.can_be_prefix, true);
    assert_eq!(parsed.must_be_fresh, true);
    assert_eq!(parsed.nonce, 42);
    assert_eq!(parsed.lifetime_ms, 4000);
}

#[test]
fn test_data_packet() {
    let name = Name::from_string("/test/data").unwrap();
    let content = Bytes::from_static(b"Hello, NDN!");
    let data = Data::new(name.clone(), content.clone()).with_ttl(10000);

    assert_eq!(data.name(), &name);
    assert_eq!(data.content(), &content);
    assert_eq!(data.ttl_ms, 10000);

    let mut wire = BytesMut::new();
    data.encode(&mut wire).unwrap();
    let parsed = Data::decode(&wire).unwrap();

    assert_eq!(parsed.name(), &name);
    assert_eq!(parsed.content(), &content);
    assert_eq!(parsed.ttl_ms, 10000);
}

#[test]
fn test_tlv_encoding_decoding() {
    let mut encoder = BytesMut::new();
    TlvElement::new(1, Bytes::from_static(b"abc")).encode(&mut encoder);

    assert_eq!(encoder.len(), 5);
    assert_eq!(encoder[0], 1);
    assert_eq!(encoder[1], 3);
    assert_eq!(&encoder[2..5], b"abc");

    let mut input = encoder.freeze();
    let element = TlvElement::decode(&mut input).unwrap();
    assert_eq!(element.tlv_type, 1);
    assert_eq!(element.value.as_ref(), b"abc");
    assert_eq!(input.len(), 0);
}

#[test]
fn test_varnum_encoding_decoding() {
    let mut buffer = BytesMut::new();

    encode_tlv_length(100, &mut buffer);
    assert_eq!(buffer.len(), 1);
    assert_eq!(buffer[0], 100);
    let mut input = buffer.clone().freeze();
    assert_eq!(decode_tlv_length(&mut input).unwrap(), 100);

    buffer.clear();
    encode_tlv_length(1000, &mut buffer);
    assert_eq!(buffer.len(), 3);
    assert_eq!(buffer[0], 253);
    let mut input = buffer.clone().freeze();
    assert_eq!(decode_tlv_length(&mut input).unwrap(), 1000);

    buffer.clear();
    encode_tlv_length(100000, &mut buffer);
    assert_eq!(buffer.len(), 5);
    assert_eq!(buffer[0], 254);
    let mut input = buffer.clone().freeze();
    assert_eq!(decode_tlv_length(&mut input).unwrap(), 100000);
}

#[test]
fn length_field_boundaries() {
    for (len, width, first) in [
        (0usize, 1usize, 0u8),
        (252, 1, 252),
        (253, 3, 253),
        (65535, 3, 253),
        (65536, 5, 254),
    ] {
        let mut buffer = BytesMut::new();
        encode_tlv_length(len, &mut buffer);
        assert_eq!(buffer.len(), width);
        assert_eq!(buffer[0], first);
        assert_eq!(tlv_length_size(len), width);
        let mut input = buffer.freeze();
        assert_eq!(decode_tlv_length(&mut input).unwrap(), len);
        assert_eq!(input.len(), 0);
    }
}

#[test]
fn length_field_bytes_are_big_endian() {
    let mut buffer = BytesMut::new();
    encode_tlv_length(0x0102, &mut buffer);
    assert_eq!(&buffer[..], &[253, 0x01, 0x02]);
    let mut buffer = BytesMut::new();
    encode_tlv_length(0x01020304, &mut buffer);
    assert_eq!(&buffer[..], &[254, 0x01, 0x02, 0x03, 0x04]);
}

#[test]
fn reserved_length_marker_is_rejected() {
    let mut input = Bytes::from_static(&[255, 0, 0, 0, 0, 0, 0, 0, 1]);
    assert_eq!(decode_tlv_length(&mut input), Err(Error::MalformedPacket));
    assert_eq!(input.len(), 9);
}

#[test]
fn truncated_length_field_is_rejected_and_leaves_input() {
    let mut input = Bytes::from_static(&[253, 1]);
    assert_eq!(decode_tlv_length(&mut input), Err(Error::MalformedPacket));
    assert_eq!(input.len(), 2);
    let mut input = Bytes::from_static(&[254, 1, 2, 3]);
    assert_eq!(decode_tlv_length(&mut input), Err(Error::MalformedPacket));
    assert_eq!(input.len(), 4);
    let mut input = Bytes::new();
    assert_eq!(decode_tlv_length(&mut input), Err(Error::MalformedPacket));
    assert_eq!(decode_tlv_type(&mut input), Err(Error::MalformedPacket));
}

#[test]
fn type_field_round_trip() {
    let mut buffer = BytesMut::new();
    encode_tlv_type(0x15, &mut buffer);
    assert_eq!(&buffer[..], &[0x15]);
    let mut input = buffer.freeze();
    assert_eq!(decode_tlv_type(&mut input), Ok(0x15));
    assert_eq!(input.len(), 0);
}

#[test]
fn element_decode_rejects_value_past_the_end() {
    let mut input = Bytes::from_static(&[8, 4, b'a', b'b']);
    assert!(TlvElement::decode(&mut input).is_err());
    assert_eq!(input.len(), 4);
    let mut input = Bytes::from_static(&[8]);
    assert!(TlvElement::decode(&mut input).is_err());
}

#[test]
fn element_decode_leaves_the_rest() {
    let mut input = Bytes::from_static(&[8, 1, b'a', 8, 1, b'b']);
    let first = TlvElement::decode(&mut input).unwrap();
    assert_eq!(first.value.as_ref(), b"a");
    assert_eq!(input.as_ref(), &[8, 1, b'b']);
    assert_eq!(first.len(), 3);
}

#[test]
fn parse_tlv_reports_offsets() {
    let data = [0u8, 0, 7, 2, 0xaa, 0xbb, 9];
    assert_eq!(parse_tlv(&data, 2), Some((7, 4, 2)));
    assert_eq!(parse_tlv(&data, 6), None);
    assert_eq!(parse_tlv(&data, 7), None);
    assert_eq!(parse_tlv(&data, 100), None);
    let long = [7u8, 253, 0, 1, 0x55];
    assert_eq!(parse_tlv(&long, 0), Some((7, 4, 1)));
    let cut = [7u8, 253, 0, 2, 0x55];
    assert_eq!(parse_tlv(&cut, 0), None);
    let wide = [7u8, 254, 0, 0, 0, 1, 0x55];
    assert_eq!(parse_tlv(&wide, 0), Some((7, 6, 1)));
    let reserved = [7u8, 255, 0, 0, 0, 1, 0x55];
    assert_eq!(parse_tlv(&reserved, 0), None);
}

#[test]
fn name_text_discards_empty_segments() {
    let name = Name::from_string("//a///b/").unwrap();
    assert_eq!(name.len(), 2);
    assert_eq!(name.to_string(), "/a/b");
    let empty = Name::from_string("").unwrap();
    assert!(empty.is_empty());
    assert_eq!(empty.to_string(), "/");
    assert_eq!(Name::from_string("/").unwrap(), Name::new());
}

#[test]
fn name_limits() {
    let sixteen = "/c".repeat(16);
    assert_eq!(Name::from_string(&sixteen).unwrap().len(), 16);
    let seventeen = "/c".repeat(17);
    assert_eq!(Name::from_string(&seventeen), Err(Error::MalformedPacket));
    let long = format!("/{}", "x".repeat(255));
    assert_eq!(Name::from_string(&long).unwrap().len(), 1);
    let too_long = format!("/{}", "x".repeat(256));
    assert_eq!(Name::from_string(&too_long), Err(Error::MalformedPacket));
}

#[test]
fn name_text_of_unprintable_component_is_hex() {
    let mut name = Name::new();
    name.push(NameComponent::from_slice(&[0x00, 0xab, 0x7f]));
    name.push(NameComponent::from_slice(b"ok go"));
    assert_eq!(name.to_string(), "/0x00ab7f/ok go");
}

#[test]
fn name_prefix_and_get() {
    let name = Name::from_string("/a/b/c").unwrap();
    assert_eq!(name.prefix(2), Name::from_string("/a/b").unwrap());
    assert_eq!(name.prefix(0), Name::new());
    assert_eq!(name.prefix(9), name);
    assert_eq!(name.get(1).unwrap().as_bytes().as_ref(), b"b");
    assert!(name.get(3).is_none());
    assert!(Name::new().is_prefix_of(&name));
    assert!(name.is_prefix_of(&name));
    assert!(name.same_as(&name.duplicate()));
}

#[test]
fn name_tlv_round_trip() {
    let name = Name::from_string("/alpha/b").unwrap();
    let element = name.to_tlv().unwrap();
    assert_eq!(element.tlv_type, 0x07);
    assert_eq!(
        element.value.as_ref(),
        &[8, 5, b'a', b'l', b'p', b'h', b'a', 8, 1, b'b']
    );
    assert_eq!(Name::from_tlv(&element).unwrap(), name);
    let wrong_type = TlvElement::new(0x08, element.value.clone());
    assert_eq!(Name::from_tlv(&wrong_type), Err(Error::MalformedPacket));
    let not_components = TlvElement::new(0x07, Bytes::from_static(&[9, 1, b'a']));
    assert_eq!(Name::from_tlv(&not_components), Err(Error::MalformedPacket));
}

#[test]
fn name_hash_is_fnv1a_of_component_bytes() {
    assert_eq!(Name::new().hash(), 0x811c9dc5);
    assert_eq!(Name::from_string("/a").unwrap().hash(), 0xe40c292c);
    assert_eq!(Name::from_string("/foo/bar").unwrap().hash(), 0xbf9cf968);
    assert_eq!(
        Name::from_string("/foo/bar").unwrap().hash(),
        Name::from_string("/foobar").unwrap().hash()
    );
    let hashes = Name::from_string("/foo/bar").unwrap().prefix_hashes();
    assert_eq!(hashes, vec![0x811c9dc5, 0xa9f37ed7, 0xbf9cf968]);
}

#[test]
fn interest_wire_bytes_are_exact() {
    let interest = Interest::new(Name::from_string("/a").unwrap())
        .with_nonce(0x01020304)
        .with_lifetime(4000)
        .with_can_be_prefix(false)
        .with_must_be_fresh(true);
    let mut wire = BytesMut::new();
    interest.encode(&mut wire).unwrap();
    assert_eq!(
        &wire[..],
        &[
            0x05, 24, 0x07, 3, 0x08, 1, b'a', 0x09, 2, 0, 1, 0x0a, 4, 1, 2, 3, 4, 0x0c, 4, 0, 0,
            0x0f, 0xa0, 0x22, 1, 32
        ]
    );
    assert_eq!(interest.wire_size().unwrap(), 5 + 20);
}

#[test]
fn interest_without_hop_limit_round_trips() {
    let mut interest = Interest::new(Name::from_string("/a/b").unwrap()).with_nonce(7);
    interest.hop_limit = None;
    let mut wire = BytesMut::new();
    interest.encode(&mut wire).unwrap();
    let parsed = Interest::decode(&wire).unwrap();
    assert_eq!(parsed.hop_limit, None);
    assert_eq!(parsed.nonce, 7);
    assert_eq!(parsed.name, interest.name);
    let mut again = BytesMut::new();
    parsed.encode(&mut again).unwrap();
    assert_eq!(again, wire);
}

#[test]
fn interest_decode_defaults_and_unknown_fields() {
    let wire = [0x05u8, 8, 0x07, 3, 0x08, 1, b'a', 0x63, 1, 0xff];
    let parsed = Interest::decode(&wire).unwrap();
    assert_eq!(parsed.name, Name::from_string("/a").unwrap());
    assert_eq!(parsed.nonce, 0);
    assert_eq!(parsed.lifetime_ms, 4000);
    assert_eq!(parsed.hop_limit, None);
    assert!(!parsed.can_be_prefix);
    assert!(!parsed.must_be_fresh);
}

#[test]
fn interest_decode_short_lifetime_is_right_aligned() {
    let wire = [0x05u8, 9, 0x07, 3, 0x08, 1, b'a', 0x0c, 2, 0x01, 0x00];
    assert_eq!(Interest::decode(&wire).unwrap().lifetime_ms, 256);
}

#[test]
fn interest_decode_rejects_malformed_input() {
    assert_eq!(Interest::decode(&[]).err(), Some(Error::MalformedPacket));
    assert_eq!(Interest::decode(&[0x05]).err(), Some(Error::MalformedPacket));
    assert_eq!(
        Interest::decode(&[0x06, 3, 0x07, 1, 0]).err(),
        Some(Error::MalformedPacket)
    );
    assert_eq!(
        Interest::decode(&[0x05, 2, 0x0a, 0]).err(),
        Some(Error::MalformedPacket)
    );
    assert_eq!(
        Interest::decode(&[0x05, 5, 0x07, 9, 0x08, 1, b'a']).err(),
        Some(Error::MalformedPacket)
    );
    assert_eq!(
        Interest::decode(&[0x05, 255, 0x07, 0]).err(),
        Some(Error::MalformedPacket)
    );
}

#[test]
fn data_wire_bytes_are_exact_and_ttl_is_not_sent() {
    let data = Data::new(
        Name::from_string("/a").unwrap(),
        Bytes::from_static(b"hi"),
    )
    .with_ttl(60000);
    let mut wire = BytesMut::new();
    data.encode(&mut wire).unwrap();
    assert_eq!(
        &wire[..],
        &[0x06, 9, 0x07, 3, 0x08, 1, b'a', 0x15, 2, b'h', b'i']
    );
    let parsed = Data::decode(&wire).unwrap();
    assert_eq!(parsed.ttl_ms, 10_000);
    assert_eq!(parsed.content.as_ref(), b"hi");
    assert_eq!(data.wire_size().unwrap(), 5 + 2 + 20);
    assert_eq!(Data::decode(&[0x06, 0]).err(), Some(Error::MalformedPacket));
}

#[test]
fn packet_is_told_apart_by_first_byte() {
    let interest = Interest::new(Name::from_string("/p/q").unwrap()).with_nonce(1);
    let packet = NdnPacket::Interest(interest);
    let wire = packet.to_bytes().unwrap();
    assert_eq!(packet.size().unwrap(), wire.len());
    assert_eq!(packet.packet_type(), "Interest");
    assert_eq!(packet.name(), "/p/q");
    match NdnPacket::from_bytes(&wire).unwrap() {
        NdnPacket::Interest(i) => assert_eq!(i.nonce, 1),
        NdnPacket::Data(_) => panic!("an Interest was written"),
    }
    let data = NdnPacket::Data(Data::new(
        Name::from_string("/p").unwrap(),
        Bytes::from_static(b"x"),
    ));
    assert_eq!(data.packet_type(), "Data");
    assert!(matches!(
        NdnPacket::from_bytes(&data.to_bytes().unwrap()),
        Ok(NdnPacket::Data(_))
    ));
    assert_eq!(
        NdnPacket::from_bytes(&[]).err(),
        Some(Error::MalformedPacket)
    );
    assert_eq!(
        NdnPacket::from_bytes(&[0x03, 0]).err(),
        Some(Error::MalformedPacket)
    );
}

#[test]
fn error_kinds_have_names() {
    assert_eq!(Error::MalformedPacket.kind_name(), "malformed packet");
    assert_eq!(Error::CapacityExceeded.kind_name(), "capacity exceeded");
    assert_eq!(Error::NotFound.kind_name(), "not found");
    assert_eq!(Error::Timeout.kind_name(), "timeout");
    assert_eq!(
        Error::NetworkError("closed".to_string()).kind_name(),
        "network error"
    );
    assert_eq!(Error::ConfigError.kind_name(), "configuration error");
}

#[test]
fn data_ages_by_the_monotonic_clock() {
    let keeps = Data::new(Name::from_string("/t").unwrap(), Bytes::from_static(b"x"))
        .with_ttl(u32::MAX);
    assert!(!keeps.is_expired());
    let lapses = Data::new(Name::from_string("/t").unwrap(), Bytes::from_static(b"x")).with_ttl(0);
    let mut expired = false;
    for _ in 0..50_000_000u32 {
        if lapses.is_expired() {
            expired = true;
            break;
        }
    }
    assert!(expired);
    assert!(lapses.duplicate().is_expired());
    assert!(!keeps.is_expired());
}

#[test]
fn new_interest_has_the_defaults() {
    let interest = Interest::new(Name::from_string("/n").unwrap());
    assert_eq!(interest.lifetime_ms, 4000);
    assert_eq!(interest.hop_limit, Some(32));
    assert!(!interest.can_be_prefix);
    assert!(interest.must_be_fresh);
    assert_ne!(interest.nonce, u32::MAX);
    let copy = interest.duplicate();
    assert_eq!(copy.nonce, interest.nonce);
    assert_eq!(copy.name, interest.name);
}

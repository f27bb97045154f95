use bytes::{Bytes, BytesMut};
use rust_udcn::classifier::{
    classify, extract_face_id, extract_name_hash, extract_name_key, extract_nonce,
    parse_ndn_packet, Classified, Packet, UdpHeader, NDN_PORT,
};
use rust_udcn::error::Error;
use rust_udcn::hash::{compute_name_hash, fnv1a_update, FNV_OFFSET_BASIS};
use rust_udcn::name::Name;
use rust_udcn::ndn::{Data, Interest};
use rust_udcn::packet::PacketType;
use rust_udcn::types::FaceId;
use rust_udcn::utils::{check_bounds, extract_be_u16, extract_be_u32};

fn frame_with(payload: &[u8]) -> Vec<u8> {
    let mut frame = vec![0u8; 62];
    for i in 0..6 {
        frame[i] = 0xd0 + i as u8;
        frame[6 + i] = 0x50 + i as u8;
    }
    frame[12] = 0x86;
    frame[13] = 0xdd;
    frame[14] = 0x60;
    frame[20] = 17;
    frame[21] = 64;
    for i in 0..16 {
        frame[22 + i] = i as u8;
        frame[38 + i] = 0x80 + i as u8;
    }
    frame[54] = 0x12;
    frame[55] = 0x34;
    frame[56] = (NDN_PORT >> 8) as u8;
    frame[57] = (NDN_PORT & 0xff) as u8;
    let length = (payload.len() + 8) as u16;
    frame[58] = (length >> 8) as u8;
    frame[59] = (length & 0xff) as u8;
    frame[60] = 0xab;
    frame[61] = 0xcd;
    frame.extend_from_slice(payload);
    frame
}

#[test]
fn frame_headers_are_found() {
    let frame = frame_with(b"\x05\x00");
    let packet = Packet::parse(&frame).unwrap();
    assert_eq!(packet.eth_offset, 0);
    assert_eq!(packet.ipv6_offset, 14);
    assert_eq!(packet.udp_offset, 54);
    assert_eq!(packet.data_offset, 62);
    assert_eq!(packet.data_len(), 2);
    assert_eq!(packet.payload(&frame).unwrap(), b"\x05\x00");
    let eth = packet.eth_header(&frame).unwrap();
    assert_eq!(eth.dst_addr, [0xd0, 0xd1, 0xd2, 0xd3, 0xd4, 0xd5]);
    assert_eq!(eth.src_addr, [0x50, 0x51, 0x52, 0x53, 0x54, 0x55]);
    assert_eq!(eth.eth_type, 0x86dd);
    let ip = packet.ipv6_header(&frame).unwrap();
    assert_eq!(ip.ver_tc_flow, 0x6000_0000);
    assert_eq!(ip.next_hdr, 17);
    assert_eq!(ip.hop_limit, 64);
    assert_eq!(ip.src_addr[15], 15);
    assert_eq!(ip.dst_addr[0], 0x80);
    assert_eq!(
        packet.udp_header(&frame).unwrap(),
        UdpHeader {
            src_port: 0x1234,
            dst_port: 6363,
            length: 10,
            checksum: 0xabcd
        }
    );
    assert!(packet.payload(&frame[..63]).is_err());
}

#[test]
fn frames_that_are_not_ndn_are_refused() {
    let good = frame_with(b"\x05\x00");
    assert!(Packet::parse(&good).is_ok());
    let mut ipv4 = good.clone();
    ipv4[12] = 0x08;
    ipv4[13] = 0x00;
    assert_eq!(Packet::parse(&ipv4), Err(Error::MalformedPacket));
    let mut tcp = good.clone();
    tcp[20] = 6;
    assert_eq!(Packet::parse(&tcp), Err(Error::MalformedPacket));
    let mut other_port = good.clone();
    other_port[57] = 0;
    assert_eq!(Packet::parse(&other_port), Err(Error::MalformedPacket));
    let mut short_udp = good.clone();
    short_udp[59] = 7;
    assert_eq!(Packet::parse(&short_udp), Err(Error::MalformedPacket));
    let mut long_udp = good.clone();
    long_udp[59] = 11;
    assert_eq!(Packet::parse(&long_udp), Err(Error::MalformedPacket));
    assert_eq!(Packet::parse(&good[..61]), Err(Error::MalformedPacket));
    assert_eq!(Packet::parse(&[]), Err(Error::MalformedPacket));
}

#[test]
fn classifier_agrees_with_the_codec() {
    let name = Name::from_string("/foo/bar").unwrap();
    let interest = Interest::new(name.clone()).with_nonce(0xdeadbeef);
    let mut wire = BytesMut::new();
    interest.encode(&mut wire).unwrap();
    assert_eq!(parse_ndn_packet(&wire), Ok(PacketType::Interest));
    assert_eq!(extract_name_hash(&wire), Some(name.hash()));
    assert_eq!(extract_name_hash(&wire), Some(0xbf9cf968));
    assert_eq!(extract_name_key(&wire), Some((0xbf9cf968, 2)));
    assert_eq!(extract_nonce(&wire), Some(0xdeadbeef));
    assert_eq!(
        classify(&wire),
        Some(Classified {
            packet_type: PacketType::Interest,
            name_hash: 0xbf9cf968,
            name_len: 2,
            nonce: 0xdeadbeef
        })
    );

    let mut wire = BytesMut::new();
    Data::new(name, Bytes::from_static(b"c"))
        .encode(&mut wire)
        .unwrap();
    assert_eq!(parse_ndn_packet(&wire), Ok(PacketType::Data));
    assert_eq!(extract_nonce(&wire), None);
    assert_eq!(
        classify(&wire),
        Some(Classified {
            packet_type: PacketType::Data,
            name_hash: 0xbf9cf968,
            name_len: 2,
            nonce: 0
        })
    );
}

#[test]
fn classifier_honours_the_component_limit() {
    let mut value = Vec::new();
    for _ in 0..17 {
        value.extend_from_slice(&[8, 1, b'c']);
    }
    let mut payload = vec![0x05, 53, 0x07, 51];
    payload.extend_from_slice(&value);
    assert_eq!(extract_name_hash(&payload), None);
    assert_eq!(classify(&payload), None);
    let mut payload = vec![0x05, 50, 0x07, 48];
    payload.extend_from_slice(&value[..48]);
    assert_eq!(extract_name_key(&payload).unwrap().1, 16);
}

#[test]
fn classifier_refuses_what_it_cannot_read() {
    assert_eq!(parse_ndn_packet(&[]), Err(Error::MalformedPacket));
    assert_eq!(parse_ndn_packet(&[0x03, 0]), Err(Error::MalformedPacket));
    assert_eq!(extract_name_hash(&[0x05, 0]), None);
    assert_eq!(extract_name_hash(&[0x05, 3, 0x07, 5, 0]), None);
    assert_eq!(extract_name_hash(&[0x09, 2, 0x07, 0]), None);
    assert_eq!(extract_name_hash(&[0x05, 2, 0x07, 0]), Some(0x811c9dc5));
    assert_eq!(extract_nonce(&[0x05, 4, 0x0a, 2, 1, 2]), None);
    assert_eq!(extract_nonce(&[0x06, 6, 0x0a, 4, 1, 2, 3, 4]), None);
    assert_eq!(classify(&[0x06, 1]), None);
}

#[test]
fn face_of_an_interface() {
    assert_eq!(extract_face_id(3), FaceId(3));
    assert_eq!(extract_face_id(0x0002_0007), FaceId(7));
}

#[test]
fn name_hash_over_a_prefix_of_the_buffer() {
    assert_eq!(compute_name_hash(b"foobar", 6), 0xbf9cf968);
    assert_eq!(compute_name_hash(b"foobar", 3), 0xa9f37ed7);
    assert_eq!(compute_name_hash(b"foobar", 100), 0xbf9cf968);
    assert_eq!(compute_name_hash(b"foobar", 0), 0x811c9dc5);
    assert_eq!(compute_name_hash(b"", 4), 0x811c9dc5);
    assert_eq!(
        fnv1a_update(fnv1a_update(FNV_OFFSET_BASIS, b"foo"), b"bar"),
        0xbf9cf968
    );
}

#[test]
fn big_endian_reads() {
    let data = [0x12u8, 0x34, 0x56, 0x78, 0x9a];
    assert_eq!(extract_be_u16(&data, 0), Some(0x1234));
    assert_eq!(extract_be_u16(&data, 3), Some(0x789a));
    assert_eq!(extract_be_u16(&data, 4), None);
    assert_eq!(extract_be_u16(&data, usize::MAX), None);
    assert_eq!(extract_be_u32(&data, 0), Some(0x12345678));
    assert_eq!(extract_be_u32(&data, 1), Some(0x3456789a));
    assert_eq!(extract_be_u32(&data, 2), None);
    assert_eq!(extract_be_u32(&[], 0), None);
}

#[test]
fn region_bounds() {
    assert_eq!(check_bounds(10, 0, 10), Ok(()));
    assert_eq!(check_bounds(10, 10, 0), Ok(()));
    assert_eq!(check_bounds(10, 4, 7), Err(Error::MalformedPacket));
    assert_eq!(check_bounds(10, 11, 0), Err(Error::MalformedPacket));
    assert_eq!(check_bounds(10, 1, usize::MAX), Err(Error::MalformedPacket));
}

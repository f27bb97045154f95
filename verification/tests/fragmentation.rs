use bytes::Bytes;
use rust_udcn::fragmentation::{
    assemble_fragments, calculate_fragment_count, fragment_packet, needs_fragmentation,
};
use std::collections::VecDeque;

#[test]
fn test_fragmentation_and_reassembly() {
    let packet = vec![0u8; 10000];
    let fragments = fragment_packet(&packet, 1000);
    assert_eq!(fragments.len(), 10);
    let queue: VecDeque<Bytes> = fragments.into();
    let reassembled = assemble_fragments(queue).unwrap();
    assert_eq!(reassembled.len(), packet.len());
    assert_eq!(reassembled, Bytes::from(packet));
}

#[test]
fn test_needs_fragmentation() {
    assert!(needs_fragmentation(1500, 1200));
    assert!(!needs_fragmentation(1000, 1200));
}

#[test]
fn test_calculate_fragment_count() {
    assert_eq!(calculate_fragment_count(1000, 1000), 1);
    assert_eq!(calculate_fragment_count(1001, 1000), 2);
    assert_eq!(calculate_fragment_count(2500, 1000), 3);
}

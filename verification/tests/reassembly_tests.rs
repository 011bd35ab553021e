//! CRYPTO fragment reassembly: coverage, overlap, ordering and gaps.

use sniproxy_ng::quic::crypto::InitialKeyRole;
use sniproxy_ng::quic::reassembly::PendingCrypto;

fn stream(len: usize) -> Vec<u8> {
    (0..len).map(|i| (i * 7 % 251) as u8).collect()
}

#[test]
fn test_reassemble_out_of_order_with_overlap() {
    let h = stream(150);
    let mut pc = PendingCrypto::new(InitialKeyRole::Client, 0);
    // Arbitrary order, overlapping ranges, all slices of one stream.
    pc.insert_fragment(100, h[100..150].to_vec());
    pc.insert_fragment(0, h[0..60].to_vec());
    pc.insert_fragment(40, h[40..110].to_vec());
    let out = pc.assemble();
    assert_eq!(out, h);
}

#[test]
fn test_reassemble_stops_at_gap() {
    let h = stream(80);
    let mut pc = PendingCrypto::new(InitialKeyRole::Client, 0);
    pc.insert_fragment(0, h[0..30].to_vec());
    pc.insert_fragment(50, h[50..80].to_vec());
    let out = pc.assemble();
    assert_eq!(out, h[0..30].to_vec());
}

#[test]
fn test_reassemble_duplicate_offset_replaces() {
    let h = stream(40);
    let mut pc = PendingCrypto::new(InitialKeyRole::Client, 0);
    pc.insert_fragment(0, h[0..20].to_vec());
    pc.insert_fragment(0, h[0..40].to_vec());
    let out = pc.assemble();
    assert_eq!(out, h);
}

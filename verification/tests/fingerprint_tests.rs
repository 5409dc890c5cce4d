//! Fingerprints: their hexadecimal form and composite fingerprints.

use dupes::fingerprint::Fingerprint;
use dupes::node::{LiteralKind, NodeKind, NormalizedNode};

#[test]
fn hex_roundtrip() {
    let fp = Fingerprint(0xdeadbeef12345678);
    let hex = fp.to_hex();
    assert_eq!(hex, "deadbeef12345678");
    let fp2 = Fingerprint::from_hex(&hex).unwrap();
    assert_eq!(fp, fp2);
}

#[test]
fn display_format() {
    let fp = Fingerprint(0x0000000000000042);
    assert_eq!(fp.to_string(), "0000000000000042");
}

#[test]
fn fingerprint_from_hex_invalid() {
    assert!(Fingerprint::from_hex("not_hex").is_none());
}

#[test]
fn fingerprint_composite_fingerprint_order_independent() {
    let fp1 = Fingerprint(1);
    let fp2 = Fingerprint(2);
    let fp3 = Fingerprint(3);
    assert_eq!(
        Fingerprint::from_fingerprints(&[fp1, fp2, fp3]),
        Fingerprint::from_fingerprints(&[fp3, fp1, fp2])
    );
}

#[test]
fn fingerprint_composite_fingerprint_different_sets_differ() {
    let fp1 = Fingerprint(1);
    let fp2 = Fingerprint(2);
    let fp3 = Fingerprint(3);
    assert_ne!(
        Fingerprint::from_fingerprints(&[fp1, fp2]),
        Fingerprint::from_fingerprints(&[fp2, fp3])
    );
}

#[test]
fn fingerprint_composite_fingerprint_deterministic() {
    let fp1 = Fingerprint(42);
    let fp2 = Fingerprint(99);
    let a = Fingerprint::from_fingerprints(&[fp1, fp2]);
    let b = Fingerprint::from_fingerprints(&[fp1, fp2]);
    assert_eq!(a, b);
}

#[test]
fn hex_is_sixteen_lowercase_digits() {
    assert_eq!(Fingerprint(0).to_hex(), "0000000000000000");
    assert_eq!(Fingerprint(u64::MAX).to_hex(), "ffffffffffffffff");
    assert_eq!(Fingerprint(0xABC).to_hex(), "0000000000000abc");
}

#[test]
fn from_hex_reads_upper_case_and_short_text() {
    assert_eq!(Fingerprint::from_hex("FF"), Some(Fingerprint(255)));
    assert_eq!(Fingerprint::from_hex("0000000000000042"), Some(Fingerprint(0x42)));
}

#[test]
fn from_hex_refuses_empty_and_too_long_text() {
    assert_eq!(Fingerprint::from_hex(""), None);
    assert_eq!(Fingerprint::from_hex("10000000000000000"), None);
    assert_eq!(Fingerprint::from_hex("12g4"), None);
}

#[test]
fn node_fingerprints_differ_by_kind() {
    let a = Fingerprint::from_node(&NormalizedNode::leaf(NodeKind::Literal(LiteralKind::Int)));
    let b = Fingerprint::from_node(&NormalizedNode::leaf(NodeKind::Literal(LiteralKind::Str)));
    let c = Fingerprint::from_node(&NormalizedNode::leaf(NodeKind::Literal(LiteralKind::Int)));
    assert_ne!(a, b);
    assert_eq!(a, c);
}

#[test]
fn composite_of_repeated_fingerprints_counts_each() {
    let a = Fingerprint(7);
    assert_ne!(
        Fingerprint::from_fingerprints(&[a]),
        Fingerprint::from_fingerprints(&[a, a])
    );
}

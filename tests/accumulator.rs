use sha3::Digest;
use wormhole_core::merkle::{verify, MerkleError, MerkleTree, ProofStep};
use wormhole_core::messages::{create_dummy_price_feed_message, message_to_bytes, Message};

fn keccak160(data: &[u8]) -> Vec<u8> {
    sha3::Keccak256::digest(data)[..20].to_vec()
}

fn leaf_hash(leaf: &[u8]) -> Vec<u8> {
    let mut buf = vec![0u8];
    buf.extend_from_slice(leaf);
    keccak160(&buf)
}

fn node_hash(l: &[u8], r: &[u8]) -> Vec<u8> {
    let mut buf = vec![1u8];
    buf.extend_from_slice(l);
    buf.extend_from_slice(r);
    keccak160(&buf)
}

fn feed_leaves(n: i64) -> Vec<Vec<u8>> {
    (1..=n).map(|v| message_to_bytes(&create_dummy_price_feed_message(v))).collect()
}

#[test]
fn dummy_message_fields() {
    let Message::PriceFeedMessage(p) = create_dummy_price_feed_message(-2);
    let mut id = vec![0u8; 32];
    id[0] = 254;
    assert_eq!(p.feed_id, id);
    assert_eq!(p.price, -2);
    assert_eq!(p.conf, u64::MAX - 1);
    assert_eq!(p.exponent, -2);
    assert_eq!(p.publish_time, -2);
    assert_eq!(p.prev_publish_time, -2);
    assert_eq!(p.ema_price, -2);
    assert_eq!(p.ema_conf, u64::MAX - 1);
}

#[test]
fn dummy_message_bytes() {
    let b = message_to_bytes(&create_dummy_price_feed_message(7));
    assert_eq!(b.len(), 85);
    assert_eq!(b[0], 0);
    assert_eq!(b[1], 7);
    assert!(b[2..33].iter().all(|x| *x == 0));
    assert_eq!(&b[33..41], &[0, 0, 0, 0, 0, 0, 0, 7]);
    assert_eq!(&b[49..53], &[0, 0, 0, 7]);
    assert_eq!(&b[77..85], &[0, 0, 0, 0, 0, 0, 0, 7]);
}

#[test]
fn build_rejects_empty() {
    assert!(matches!(MerkleTree::build(&vec![]), Err(MerkleError::EmptyInput)));
}

#[test]
fn single_leaf_root_is_leaf_hash() {
    let leaves = vec![b"abc".to_vec()];
    let t = MerkleTree::build(&leaves).ok().unwrap();
    assert_eq!(t.root(), leaf_hash(b"abc"));
    let p = t.prove(b"abc").ok().unwrap();
    assert!(p.is_empty());
    assert!(verify(&t.root(), b"abc", &p));
}

#[test]
fn odd_node_is_carried_forward() {
    let leaves = vec![b"a".to_vec(), b"b".to_vec(), b"c".to_vec()];
    let t = MerkleTree::build(&leaves).ok().unwrap();
    let expected = node_hash(&node_hash(&leaf_hash(b"a"), &leaf_hash(b"b")), &leaf_hash(b"c"));
    assert_eq!(t.root(), expected);
    let p = t.prove(b"c").ok().unwrap();
    assert_eq!(p.len(), 1);
    assert!(p[0].sibling_on_left);
}

#[test]
fn four_leaf_root_exact() {
    let leaves = vec![b"a".to_vec(), b"b".to_vec(), b"c".to_vec(), b"d".to_vec()];
    let t = MerkleTree::build(&leaves).ok().unwrap();
    let l = node_hash(&leaf_hash(b"a"), &leaf_hash(b"b"));
    let r = node_hash(&leaf_hash(b"c"), &leaf_hash(b"d"));
    assert_eq!(t.root(), node_hash(&l, &r));
}

#[test]
fn root_is_deterministic_and_order_sensitive() {
    let leaves = feed_leaves(5);
    let a = MerkleTree::build(&leaves).ok().unwrap();
    let b = MerkleTree::build(&leaves).ok().unwrap();
    assert_eq!(a.root(), b.root());
    let mut swapped = leaves.clone();
    swapped.swap(0, 1);
    let c = MerkleTree::build(&swapped).ok().unwrap();
    assert_ne!(a.root(), c.root());
}

#[test]
fn every_leaf_proves() {
    for n in 1..=9 {
        let leaves = feed_leaves(n);
        let t = MerkleTree::build(&leaves).ok().unwrap();
        for leaf in &leaves {
            let p = t.prove(leaf).ok().unwrap();
            assert!(verify(&t.root(), leaf, &p));
        }
    }
}

#[test]
fn duplicate_leaf_proves_first_position() {
    let leaves = vec![b"x".to_vec(), b"y".to_vec(), b"x".to_vec()];
    let t = MerkleTree::build(&leaves).ok().unwrap();
    let p = t.prove(b"x").ok().unwrap();
    assert_eq!(p.len(), 2);
    assert!(!p[0].sibling_on_left);
    assert_eq!(p[0].sibling, leaf_hash(b"y"));
    assert!(verify(&t.root(), b"x", &p));
}

#[test]
fn missing_leaf_is_not_found() {
    let t = MerkleTree::build(&feed_leaves(4)).ok().unwrap();
    assert!(matches!(t.prove(b"nope"), Err(MerkleError::LeafNotFound)));
}

#[test]
fn mutations_are_rejected() {
    let leaves = feed_leaves(6);
    let t = MerkleTree::build(&leaves).ok().unwrap();
    let root = t.root();
    let leaf = &leaves[2];
    let p = t.prove(leaf).ok().unwrap();
    for i in 0..leaf.len() {
        let mut bad = leaf.clone();
        bad[i] ^= 1;
        assert!(!verify(&root, &bad, &p));
    }
    for s in 0..p.len() {
        for i in 0..20 {
            let mut bad: Vec<ProofStep> = p.clone();
            bad[s].sibling[i] ^= 0x80;
            assert!(!verify(&root, leaf, &bad));
        }
    }
    for i in 0..root.len() {
        let mut bad = root.clone();
        bad[i] ^= 1;
        assert!(!verify(&bad, leaf, &p));
    }
}

#[test]
fn dummy_message_minus_one() {
    let Message::PriceFeedMessage(p) = create_dummy_price_feed_message(-1);
    let mut id = vec![0u8; 32];
    id[0] = 255;
    assert_eq!(p.feed_id, id);
    assert_eq!(p.price, -1);
    assert_eq!(p.conf, u64::MAX);
    assert_eq!(p.exponent, -1);
    assert_eq!(p.ema_conf, u64::MAX);
}

#[test]
fn dummy_message_wraps_exponent() {
    let Message::PriceFeedMessage(p) = create_dummy_price_feed_message(0x1_8000_0001);
    assert_eq!(p.exponent, i32::MIN + 1);
    assert_eq!(p.feed_id[0], 1);
    let Message::PriceFeedMessage(q) = create_dummy_price_feed_message(i64::MIN);
    assert_eq!(q.conf, 1u64 << 63);
    assert_eq!(q.exponent, 0);
    assert_eq!(q.feed_id[0], 0);
}

#[test]
fn negative_fields_encode_as_twos_complement() {
    let b = message_to_bytes(&create_dummy_price_feed_message(-2));
    assert_eq!(&b[33..41], &[0xff, 0xff, 0xff, 0xff, 0xff, 0xff, 0xff, 0xfe]);
    assert_eq!(&b[49..53], &[0xff, 0xff, 0xff, 0xfe]);
    assert_eq!(b[1], 0xfe);
}

#[test]
fn distinct_values_give_distinct_leaves() {
    let values = [-3i64, -2, -1, 0, 1, 2, i64::MIN, i64::MAX];
    for a in values {
        for b in values {
            let la = message_to_bytes(&create_dummy_price_feed_message(a));
            let lb = message_to_bytes(&create_dummy_price_feed_message(b));
            assert_eq!(a == b, la == lb);
        }
    }
}

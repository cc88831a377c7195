use vstd::prelude::*;

use crate::bytes::{
    be_bytes, i32_bits, i64_bits, lemma_be_bytes_len, lemma_be_value_of_bytes, low_byte, pow256,
    push_all, push_be, twos32, twos64, wrap32, wrap_i32,
};

verus! {

/// A price update for one feed.
#[derive(Clone, Debug)]
pub struct PriceFeedMessage {
    pub feed_id: Vec<u8>,
    pub price: i64,
    pub conf: u64,
    pub exponent: i32,
    pub publish_time: i64,
    pub prev_publish_time: i64,
    pub ema_price: i64,
    pub ema_conf: u64,
}

/// A message committed to by the accumulator.
#[derive(Clone, Debug)]
pub enum Message {
    PriceFeedMessage(PriceFeedMessage),
}

/// Variant tag of a price feed message on the wire.
pub const PRICE_FEED_MESSAGE_TAG: u8 = 0;

/// Magic prefix of an accumulator root payload.
pub const ACCUMULATOR_MAGIC: u32 = 0x4155_5756;

/// Payload kind of a Merkle root.
pub const MERKLE_PAYLOAD_KIND: u8 = 0;

pub open spec fn price_feed_bytes(m: PriceFeedMessage) -> Seq<u8> {
    seq![PRICE_FEED_MESSAGE_TAG] + m.feed_id@ + be_bytes(twos64(m.price as int) as nat, 8)
        + be_bytes(m.conf as nat, 8) + be_bytes(twos32(m.exponent as int) as nat, 4) + be_bytes(
        twos64(m.publish_time as int) as nat,
        8,
    ) + be_bytes(twos64(m.prev_publish_time as int) as nat, 8) + be_bytes(
        twos64(m.ema_price as int) as nat,
        8,
    ) + be_bytes(m.ema_conf as nat, 8)
}

/// Wire form of a message: variant tag, then big-endian fields in order.
pub open spec fn message_bytes(m: Message) -> Seq<u8> {
    match m {
        Message::PriceFeedMessage(p) => price_feed_bytes(p),
    }
}

/// Serialises a message to the bytes that serve as its accumulator leaf.
pub fn message_to_bytes(m: &Message) -> (r: Vec<u8>)
    ensures
        r@ == message_bytes(*m),
{
    match m {
        Message::PriceFeedMessage(p) => {
            let mut out: Vec<u8> = Vec::new();
            out.push(PRICE_FEED_MESSAGE_TAG);
            push_all(&mut out, p.feed_id.as_slice());
            push_be(&mut out, i64_bits(p.price), 8);
            push_be(&mut out, p.conf, 8);
            push_be(&mut out, i32_bits(p.exponent) as u64, 4);
            push_be(&mut out, i64_bits(p.publish_time), 8);
            push_be(&mut out, i64_bits(p.prev_publish_time), 8);
            push_be(&mut out, i64_bits(p.ema_price), 8);
            push_be(&mut out, p.ema_conf, 8);
            assert(out@ =~= price_feed_bytes(*p));
            out
        },
    }
}

/// A price feed message with every field set from `value` (unsigned and
/// narrower fields take its two's-complement bits, wrapped), and a feed id
/// whose first byte is the low byte of `value` and whose other 31 bytes are
/// zero.
pub fn create_dummy_price_feed_message(value: i64) -> (r: Message)
    ensures
        ({
            let Message::PriceFeedMessage(p) = r;
            &&& p.feed_id@.len() == 32
            &&& p.feed_id@[0] as int == (value as int) % 256
            &&& forall|k: int| 1 <= k < 32 ==> p.feed_id@[k] == 0u8
            &&& p.price == value
            &&& p.conf as int == twos64(value as int)
            &&& p.exponent as int == wrap32(value as int)
            &&& p.publish_time == value
            &&& p.prev_publish_time == value
            &&& p.ema_price == value
            &&& p.ema_conf as int == twos64(value as int)
        }),
{
    let first = low_byte(value);
    let mut dummy_id: Vec<u8> = Vec::new();
    dummy_id.push(first);
    let mut i: usize = 1;
    while i < 32
        invariant
            1 <= i <= 32,
            dummy_id@.len() == i,
            dummy_id@[0] == first,
            forall|k: int| 1 <= k < i ==> dummy_id@[k] == 0u8,
        decreases 32 - i,
    {
        dummy_id.push(0);
        i = i + 1;
    }
    let bits = i64_bits(value);
    let msg = PriceFeedMessage {
        feed_id: dummy_id,
        price: value,
        conf: bits,
        exponent: wrap_i32(value),
        publish_time: value,
        prev_publish_time: value,
        ema_price: value,
        ema_conf: bits,
    };
    Message::PriceFeedMessage(msg)
}

/// Price feed messages with 32-byte feed ids and different prices have
/// different wire forms, so they are different accumulator leaves.
pub proof fn lemma_distinct_prices_distinct_bytes(m1: PriceFeedMessage, m2: PriceFeedMessage)
    requires
        m1.feed_id@.len() == 32,
        m2.feed_id@.len() == 32,
        m1.price != m2.price,
    ensures
        price_feed_bytes(m1) != price_feed_bytes(m2),
{
    let n1 = twos64(m1.price as int) as nat;
    let n2 = twos64(m2.price as int) as nat;
    lemma_be_bytes_len(n1, 8);
    lemma_be_bytes_len(n2, 8);
    reveal_with_fuel(pow256, 9);
    if price_feed_bytes(m1) == price_feed_bytes(m2) {
        assert(price_feed_bytes(m1).subrange(33, 41) =~= be_bytes(n1, 8));
        assert(price_feed_bytes(m2).subrange(33, 41) =~= be_bytes(n2, 8));
        lemma_be_value_of_bytes(n1, 8);
        lemma_be_value_of_bytes(n2, 8);
    }
}

/// Attestation payload that carries an accumulator root: magic, version
/// 1.0, payload kind, slot, ring size and the 20-byte root.
pub open spec fn merkle_root_payload_bytes(slot: u64, ring_size: u32, root: Seq<u8>) -> Seq<u8> {
    be_bytes(ACCUMULATOR_MAGIC as nat, 4) + seq![1u8, 0u8, MERKLE_PAYLOAD_KIND] + be_bytes(
        slot as nat,
        8,
    ) + be_bytes(ring_size as nat, 4) + root
}

/// Encodes the attestation payload that carries an accumulator root.
pub fn encode_merkle_root_payload(slot: u64, ring_size: u32, root: &[u8]) -> (r: Vec<u8>)
    ensures
        r@ == merkle_root_payload_bytes(slot, ring_size, root@),
{
    let mut out: Vec<u8> = Vec::new();
    push_be(&mut out, ACCUMULATOR_MAGIC as u64, 4);
    out.push(1);
    out.push(0);
    out.push(MERKLE_PAYLOAD_KIND);
    push_be(&mut out, slot, 8);
    push_be(&mut out, ring_size as u64, 4);
    push_all(&mut out, root);
    assert(out@ =~= merkle_root_payload_bytes(slot, ring_size, root@));
    out
}

} // verus!

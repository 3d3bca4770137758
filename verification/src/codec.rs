use vstd::prelude::*;
use vstd::arithmetic::div_mod::lemma_fundamental_div_mod_converse;
use crate::timestamp::{millis_of, to_uuid_timestamp_buildpart, Timestamp};

verus! {

/// A 128-bit UUID. `bits` reads the sixteen bytes of the identifier in order,
/// most significant byte first, so the numeric order of `bits` is exactly the
/// byte-wise order of the identifier.
#[derive(PartialEq, Eq, Structural, Clone, Copy, Debug, PartialOrd, Ord, Hash)]
pub struct Uuid {
    pub bits: u128,
}

/// The UUID layout family, told apart by the leading bits of byte 8.
#[derive(PartialEq, Eq, Structural, Clone, Copy, Debug)]
pub enum UuidVariant {
    /// Leading bit `0`: reserved for NCS compatibility.
    Ncs,
    /// Leading bits `10`: the RFC 4122 layout, the one this codec produces.
    Rfc4122,
    /// Leading bits `110`: reserved for Microsoft compatibility.
    Microsoft,
    /// Leading bits `111`: reserved for future definition.
    Future,
}

/// The 4-bit version field: the top nibble of byte 6.
pub open spec fn version_of(bits: u128) -> u128 {
    (bits >> 76) & 0xF
}

/// The 2-bit variant field: the top two bits of byte 8.
pub open spec fn variant_bits_of(bits: u128) -> u128 {
    (bits >> 62) & 0x3
}

/// The top three bits of byte 8, on which the variant families are told apart
/// by prefix: `0xx`, `10x`, `110`, `111`.
pub open spec fn variant_prefix_of(bits: u128) -> u128 {
    (bits >> 61) & 0x7
}

/// The variant family of a UUID.
pub open spec fn variant_of(bits: u128) -> UuidVariant {
    let p = variant_prefix_of(bits);
    if p < 4 {
        UuidVariant::Ncs
    } else if p < 6 {
        UuidVariant::Rfc4122
    } else if p == 6 {
        UuidVariant::Microsoft
    } else {
        UuidVariant::Future
    }
}

/// The 48-bit millisecond timestamp field: bytes 0-5.
pub open spec fn millis_field_of(bits: u128) -> u128 {
    bits >> 80
}

/// The 12 payload bits that land in the low nibble of byte 6 and in byte 7:
/// the low four bits of payload byte 0, then payload byte 1.
pub open spec fn payload_high_of(p: Seq<u8>) -> u16 {
    (((p[0] & 0x0F) as u16) << 8) | (p[1] as u16)
}

/// The 62 payload bits that land in the low six bits of byte 8 and in bytes
/// 9-15: the low six bits of payload byte 2, then payload bytes 3-9.
pub open spec fn payload_low_of(p: Seq<u8>) -> u64 {
    (((p[2] & 0x3F) as u64) << 56) | ((p[3] as u64) << 48) | ((p[4] as u64) << 40)
        | ((p[5] as u64) << 32) | ((p[6] as u64) << 24) | ((p[7] as u64) << 16)
        | ((p[8] as u64) << 8) | (p[9] as u64)
}

/// The UUIDv7 bit layout: the millisecond count truncated to 48 bits, the
/// version nibble `0111`, 12 payload bits, the variant bits `10`, and 62
/// payload bits.
pub open spec fn encode_bits(millis: u64, high: u16, low: u64) -> u128 {
    (((millis & 0xFFFF_FFFF_FFFF) as u128) << 80) | (0x7u128 << 76)
        | (((high & 0x0FFF) as u128) << 64) | (0x2u128 << 62)
        | ((low & 0x3FFF_FFFF_FFFF_FFFF) as u128)
}

/// The UUID encoded from a millisecond count and a 10-byte payload.
pub open spec fn encoded_of(millis: u64, p: Seq<u8>) -> u128 {
    encode_bits(millis, payload_high_of(p), payload_low_of(p))
}

/// The least UUID that carries a given millisecond count: all-zero payload.
pub open spec fn min_bits_of(millis: u64) -> u128 {
    encode_bits(millis, 0, 0)
}

/// The greatest UUID that carries a given millisecond count: all-one payload.
pub open spec fn max_bits_of(millis: u64) -> u128 {
    encode_bits(millis, 0x0FFF, 0x3FFF_FFFF_FFFF_FFFF)
}

/// The timestamp a version-7 UUID decodes to: the 48-bit millisecond field,
/// split into whole seconds and a millisecond-granular nanosecond part.
pub open spec fn decoded_timestamp_of(bits: u128) -> Timestamp {
    Timestamp {
        epoch_seconds: (millis_field_of(bits) / 1000) as u64,
        nanoseconds: ((millis_field_of(bits) % 1000) * 1_000_000) as u32,
    }
}

/// What decoding returns: the embedded timestamp for a version-7 UUID, and
/// nothing for every other version.
pub open spec fn decode_of(bits: u128) -> Option<Timestamp> {
    if version_of(bits) == 7 {
        Some(decoded_timestamp_of(bits))
    } else {
        None
    }
}

/// Every encoded UUID carries version 7, the RFC 4122 variant, and the
/// millisecond count truncated to 48 bits, whatever the payload bits are.
pub proof fn lemma_encode_fields(millis: u64, high: u16, low: u64)
    ensures
        version_of(encode_bits(millis, high, low)) == 7,
        variant_bits_of(encode_bits(millis, high, low)) == 2,
        variant_of(encode_bits(millis, high, low)) == UuidVariant::Rfc4122,
        millis_field_of(encode_bits(millis, high, low)) == millis & 0xFFFF_FFFF_FFFF,
{
    assert(version_of(encode_bits(millis, high, low)) == 7) by (bit_vector);
    assert(variant_bits_of(encode_bits(millis, high, low)) == 2) by (bit_vector);
    assert(4 <= variant_prefix_of(encode_bits(millis, high, low)) < 6) by (bit_vector);
    assert(millis_field_of(encode_bits(millis, high, low)) == millis & 0xFFFF_FFFF_FFFF)
        by (bit_vector);
}

/// For one millisecond count, the all-zero payload gives the least encoding,
/// the all-one payload the greatest, and the two are distinct.
pub proof fn lemma_payload_bounds(millis: u64, high: u16, low: u64)
    ensures
        min_bits_of(millis) <= encode_bits(millis, high, low),
        encode_bits(millis, high, low) <= max_bits_of(millis),
        min_bits_of(millis) < max_bits_of(millis),
{
    assert(encode_bits(millis, 0, 0) <= encode_bits(millis, high, low)) by (bit_vector);
    assert(encode_bits(millis, high, low) <= encode_bits(millis, 0x0FFF, 0x3FFF_FFFF_FFFF_FFFF))
        by (bit_vector);
    assert(encode_bits(millis, 0, 0) < encode_bits(millis, 0x0FFF, 0x3FFF_FFFF_FFFF_FFFF))
        by (bit_vector);
}

/// Of two millisecond counts below 2^48, the smaller one's greatest encoding
/// still sorts strictly before the larger one's least encoding.
pub proof fn lemma_millis_ordering(m1: u64, m2: u64)
    requires
        m1 < m2,
        m2 < 0x1_0000_0000_0000,
    ensures
        max_bits_of(m1) < min_bits_of(m2),
{
    assert(max_bits_of(m1) < min_bits_of(m2)) by (bit_vector)
        requires
            m1 < m2,
            m2 < 0x1_0000_0000_0000,
    ;
}

/// Version invariant: every UUID this codec encodes carries version 7 and so
/// decodes to a timestamp, whatever its payload — random or boundary.
pub proof fn lemma_version_invariant(ts: Timestamp, p: Seq<u8>)
    requires
        ts.wf(),
    ensures
        version_of(encoded_of(millis_of(ts) as u64, p)) == 7,
        variant_of(encoded_of(millis_of(ts) as u64, p)) == UuidVariant::Rfc4122,
        decode_of(encoded_of(millis_of(ts) as u64, p)) is Some,
{
    lemma_encode_fields(millis_of(ts) as u64, payload_high_of(p), payload_low_of(p));
}

/// Round-trip truncation: as long as the millisecond count fits the 48-bit
/// field, decoding an encoded UUID gives back the timestamp truncated to
/// millisecond resolution — the sub-millisecond nanoseconds are floored away,
/// never rounded — independent of the payload.
pub proof fn lemma_round_trip(ts: Timestamp, p: Seq<u8>)
    requires
        ts.wf(),
        millis_of(ts) < 0x1_0000_0000_0000,
    ensures
        decode_of(encoded_of(millis_of(ts) as u64, p)) == Some(Timestamp {
            epoch_seconds: ts.epoch_seconds,
            nanoseconds: ((ts.nanoseconds / 1_000_000) * 1_000_000) as u32,
        }),
{
    let m: u64 = millis_of(ts) as u64;
    lemma_encode_fields(m, payload_high_of(p), payload_low_of(p));
    assert(m & 0xFFFF_FFFF_FFFF == m) by (bit_vector)
        requires
            m < 0x1_0000_0000_0000,
    ;
    let e = ts.epoch_seconds as int;
    let sub = ts.nanoseconds as int / 1_000_000;
    assert(0 <= sub < 1000) by (nonlinear_arith)
        requires
            ts.nanoseconds < 1_000_000_000,
            sub == ts.nanoseconds as int / 1_000_000,
    ;
    lemma_fundamental_div_mod_converse(m as int, 1000, e, sub);
    assert(sub * 1_000_000 == (ts.nanoseconds / 1_000_000) * 1_000_000);
}

/// Boundary ordering: for one timestamp, the all-zero-payload UUID is the
/// least encoding and the all-one-payload UUID the greatest, with every other
/// payload strictly bracketed between two distinct bounds.
pub proof fn lemma_boundary_ordering(ts: Timestamp, p: Seq<u8>)
    requires
        ts.wf(),
    ensures
        min_bits_of(millis_of(ts) as u64) <= encoded_of(millis_of(ts) as u64, p),
        encoded_of(millis_of(ts) as u64, p) <= max_bits_of(millis_of(ts) as u64),
        min_bits_of(millis_of(ts) as u64) < max_bits_of(millis_of(ts) as u64),
{
    lemma_payload_bounds(millis_of(ts) as u64, payload_high_of(p), payload_low_of(p));
}

/// Cross-millisecond ordering: when two timestamps map to different
/// millisecond counts within the 48-bit field, every UUID of the earlier
/// millisecond sorts strictly before every UUID of the later one.
pub proof fn lemma_cross_millisecond_ordering(ts1: Timestamp, ts2: Timestamp)
    requires
        ts1.wf(),
        ts2.wf(),
        millis_of(ts1) < millis_of(ts2),
        millis_of(ts2) < 0x1_0000_0000_0000,
    ensures
        max_bits_of(millis_of(ts1) as u64) < min_bits_of(millis_of(ts2) as u64),
{
    lemma_millis_ordering(millis_of(ts1) as u64, millis_of(ts2) as u64);
}

/// Decoding is a pure projection of the bits: two decodes of one and the same
/// UUID always yield identical results.
pub proof fn lemma_decode_pure(u: Uuid, r1: Option<Timestamp>, r2: Option<Timestamp>)
    requires
        r1 == decode_of(u.bits),
        r2 == decode_of(u.bits),
    ensures
        r1 == r2,
{
}

/// A payload of ten zero bytes contributes no payload bits.
proof fn lemma_zero_payload(p: Seq<u8>)
    requires
        p.len() == 10,
        forall|i: int| 0 <= i < 10 ==> p[i] == 0,
    ensures
        payload_high_of(p) == 0,
        payload_low_of(p) == 0,
{
    assert((((0u8 & 0x0F) as u16) << 8) | (0u8 as u16) == 0) by (bit_vector);
    assert((((0u8 & 0x3F) as u64) << 56) | ((0u8 as u64) << 48) | ((0u8 as u64) << 40)
        | ((0u8 as u64) << 32) | ((0u8 as u64) << 24) | ((0u8 as u64) << 16)
        | ((0u8 as u64) << 8) | (0u8 as u64) == 0) by (bit_vector);
}

/// A payload of ten 0xFF bytes sets every payload bit.
proof fn lemma_ones_payload(p: Seq<u8>)
    requires
        p.len() == 10,
        forall|i: int| 0 <= i < 10 ==> p[i] == 0xFF,
    ensures
        payload_high_of(p) == 0x0FFF,
        payload_low_of(p) == 0x3FFF_FFFF_FFFF_FFFF,
{
    assert((((0xFFu8 & 0x0F) as u16) << 8) | (0xFFu8 as u16) == 0x0FFF) by (bit_vector);
    assert((((0xFFu8 & 0x3F) as u64) << 56) | ((0xFFu8 as u64) << 48) | ((0xFFu8 as u64) << 40)
        | ((0xFFu8 as u64) << 32) | ((0xFFu8 as u64) << 24) | ((0xFFu8 as u64) << 16)
        | ((0xFFu8 as u64) << 8) | (0xFFu8 as u64) == 0x3FFF_FFFF_FFFF_FFFF) by (bit_vector);
}

/// Encode a millisecond count and a 10-byte payload into the UUIDv7 layout.
/// Bits 48 and above of `millis` are silently truncated away.
pub fn encode_millis(millis: u64, payload: &[u8; 10]) -> (r: Uuid)
    ensures
        r.bits == encoded_of(millis, payload@),
{
    let high: u16 = (((payload[0] & 0x0F) as u16) << 8) | (payload[1] as u16);
    let low: u64 = (((payload[2] & 0x3F) as u64) << 56) | ((payload[3] as u64) << 48)
        | ((payload[4] as u64) << 40) | ((payload[5] as u64) << 32)
        | ((payload[6] as u64) << 24) | ((payload[7] as u64) << 16)
        | ((payload[8] as u64) << 8) | (payload[9] as u64);
    let bits: u128 = (((millis & 0xFFFF_FFFF_FFFF) as u128) << 80) | (0x7u128 << 76)
        | (((high & 0x0FFF) as u128) << 64) | (0x2u128 << 62)
        | ((low & 0x3FFF_FFFF_FFFF_FFFF) as u128);
    Uuid { bits }
}

/// Encode a timestamp and a 10-byte payload into a UUIDv7.
pub fn encode(ts: &Timestamp, payload: &[u8; 10]) -> (r: Uuid)
    requires
        ts.wf(),
    ensures
        r.bits == encoded_of(millis_of(*ts) as u64, payload@),
{
    let millis = to_uuid_timestamp_buildpart(*ts);
    encode_millis(millis, payload)
}

/// The least UUID that decodes to the same millisecond as `ts`: the encoding
/// with the all-zero payload, for inclusive range-query lower bounds.
pub fn generate_min(ts: &Timestamp) -> (r: Uuid)
    requires
        ts.wf(),
    ensures
        r.bits == min_bits_of(millis_of(*ts) as u64),
        r.bits == encoded_of(millis_of(*ts) as u64, seq![0u8; 10]),
{
    let payload: [u8; 10] = [0u8; 10];
    let r = encode(ts, &payload);
    proof {
        lemma_zero_payload(payload@);
        lemma_zero_payload(seq![0u8; 10]);
    }
    r
}

/// The greatest UUID that decodes to the same millisecond as `ts`: the
/// encoding with the all-one payload, for inclusive range-query upper bounds.
pub fn generate_max(ts: &Timestamp) -> (r: Uuid)
    requires
        ts.wf(),
    ensures
        r.bits == max_bits_of(millis_of(*ts) as u64),
        r.bits == encoded_of(millis_of(*ts) as u64, seq![0xFFu8; 10]),
{
    let payload: [u8; 10] = [0xFFu8; 10];
    let r = encode(ts, &payload);
    proof {
        lemma_ones_payload(payload@);
        lemma_ones_payload(seq![0xFFu8; 10]);
    }
    r
}

/// Relies on getrandom::fill: it fills the buffer with cryptographically
/// random bytes from the operating system, or fails without returning a
/// buffer. Nothing is promised of the byte values; the encoder is verified
/// for every payload.
#[verifier::external_body]
fn random_payload() -> (r: [u8; 10])
    ensures
        r@.len() == 10,
{
    let mut buf = [0u8; 10];
    getrandom::fill(&mut buf).expect("the system randomness source failed");
    buf
}

/// A fresh version-7 UUID for the timestamp, with a random 80-bit payload.
/// Two UUIDs of the same millisecond carry no order between them, but every
/// one falls inside the closed bracket that `generate_min` and `generate_max`
/// build for that millisecond.
pub fn generate(ts: &Timestamp) -> (r: Uuid)
    requires
        ts.wf(),
    ensures
        version_of(r.bits) == 7,
        variant_of(r.bits) == UuidVariant::Rfc4122,
        millis_field_of(r.bits) == (millis_of(*ts) as u64) & 0xFFFF_FFFF_FFFF,
        min_bits_of(millis_of(*ts) as u64) <= r.bits <= max_bits_of(millis_of(*ts) as u64),
        exists|p: Seq<u8>| p.len() == 10 && r.bits == encoded_of(millis_of(*ts) as u64, p),
        millis_of(*ts) < 0x1_0000_0000_0000 ==> decode_of(r.bits) == Some(Timestamp {
            epoch_seconds: ts.epoch_seconds,
            nanoseconds: ((ts.nanoseconds / 1_000_000) * 1_000_000) as u32,
        }),
{
    let payload = random_payload();
    let r = encode(ts, &payload);
    proof {
        let m = millis_of(*ts) as u64;
        lemma_encode_fields(m, payload_high_of(payload@), payload_low_of(payload@));
        lemma_payload_bounds(m, payload_high_of(payload@), payload_low_of(payload@));
        assert(payload@.len() == 10 && r.bits == encoded_of(m, payload@));
        if millis_of(*ts) < 0x1_0000_0000_0000 {
            lemma_round_trip(*ts, payload@);
        }
    }
    r
}

/// The sixteen bytes of a UUID in order, most significant first: the wire and
/// storage form.
pub open spec fn bytes_of(bits: u128) -> Seq<u8> {
    seq![
        (bits >> 120) as u8,
        (bits >> 112) as u8,
        (bits >> 104) as u8,
        (bits >> 96) as u8,
        (bits >> 88) as u8,
        (bits >> 80) as u8,
        (bits >> 72) as u8,
        (bits >> 64) as u8,
        (bits >> 56) as u8,
        (bits >> 48) as u8,
        (bits >> 40) as u8,
        (bits >> 32) as u8,
        (bits >> 24) as u8,
        (bits >> 16) as u8,
        (bits >> 8) as u8,
        bits as u8,
    ]
}

/// The 128-bit value read from sixteen bytes, most significant first.
pub open spec fn bits_of_bytes(s: Seq<u8>) -> u128 {
    ((s[0] as u128) << 120) | ((s[1] as u128) << 112) | ((s[2] as u128) << 104)
        | ((s[3] as u128) << 96) | ((s[4] as u128) << 88) | ((s[5] as u128) << 80)
        | ((s[6] as u128) << 72) | ((s[7] as u128) << 64) | ((s[8] as u128) << 56)
        | ((s[9] as u128) << 48) | ((s[10] as u128) << 40) | ((s[11] as u128) << 32)
        | ((s[12] as u128) << 24) | ((s[13] as u128) << 16) | ((s[14] as u128) << 8)
        | (s[15] as u128)
}

/// Reading the sixteen bytes of a UUID back as a 128-bit value gives the
/// UUID itself: the byte form loses nothing.
pub proof fn lemma_bytes_round_trip(bits: u128)
    ensures
        bits_of_bytes(bytes_of(bits)) == bits,
{
    assert((((bits >> 120) as u8 as u128) << 120) | (((bits >> 112) as u8 as u128) << 112)
        | (((bits >> 104) as u8 as u128) << 104) | (((bits >> 96) as u8 as u128) << 96)
        | (((bits >> 88) as u8 as u128) << 88) | (((bits >> 80) as u8 as u128) << 80)
        | (((bits >> 72) as u8 as u128) << 72) | (((bits >> 64) as u8 as u128) << 64)
        | (((bits >> 56) as u8 as u128) << 56) | (((bits >> 48) as u8 as u128) << 48)
        | (((bits >> 40) as u8 as u128) << 40) | (((bits >> 32) as u8 as u128) << 32)
        | (((bits >> 24) as u8 as u128) << 24) | (((bits >> 16) as u8 as u128) << 16)
        | (((bits >> 8) as u8 as u128) << 8) | (bits as u8 as u128) == bits) by (bit_vector);
}

/// Sixteen bytes survive the trip through the 128-bit value unchanged.
pub proof fn lemma_bits_round_trip(s: Seq<u8>)
    requires
        s.len() == 16,
    ensures
        bytes_of(bits_of_bytes(s)) == s,
{
    let x0 = s[0];
    let x1 = s[1];
    let x2 = s[2];
    let x3 = s[3];
    let x4 = s[4];
    let x5 = s[5];
    let x6 = s[6];
    let x7 = s[7];
    let x8 = s[8];
    let x9 = s[9];
    let x10 = s[10];
    let x11 = s[11];
    let x12 = s[12];
    let x13 = s[13];
    let x14 = s[14];
    let x15 = s[15];
    assert(
        (((((x0 as u128) << 120) | ((x1 as u128) << 112) | ((x2 as u128) << 104) | ((x3 as u128) << 96) | ((x4 as u128) << 88) | ((x5 as u128) << 80) | ((x6 as u128) << 72) | ((x7 as u128) << 64) | ((x8 as u128) << 56) | ((x9 as u128) << 48) | ((x10 as u128) << 40) | ((x11 as u128) << 32) | ((x12 as u128) << 24) | ((x13 as u128) << 16) | ((x14 as u128) << 8) | (x15 as u128)) >> 120) as u8) == x0 &&
        (((((x0 as u128) << 120) | ((x1 as u128) << 112) | ((x2 as u128) << 104) | ((x3 as u128) << 96) | ((x4 as u128) << 88) | ((x5 as u128) << 80) | ((x6 as u128) << 72) | ((x7 as u128) << 64) | ((x8 as u128) << 56) | ((x9 as u128) << 48) | ((x10 as u128) << 40) | ((x11 as u128) << 32) | ((x12 as u128) << 24) | ((x13 as u128) << 16) | ((x14 as u128) << 8) | (x15 as u128)) >> 112) as u8) == x1 &&
        (((((x0 as u128) << 120) | ((x1 as u128) << 112) | ((x2 as u128) << 104) | ((x3 as u128) << 96) | ((x4 as u128) << 88) | ((x5 as u128) << 80) | ((x6 as u128) << 72) | ((x7 as u128) << 64) | ((x8 as u128) << 56) | ((x9 as u128) << 48) | ((x10 as u128) << 40) | ((x11 as u128) << 32) | ((x12 as u128) << 24) | ((x13 as u128) << 16) | ((x14 as u128) << 8) | (x15 as u128)) >> 104) as u8) == x2 &&
        (((((x0 as u128) << 120) | ((x1 as u128) << 112) | ((x2 as u128) << 104) | ((x3 as u128) << 96) | ((x4 as u128) << 88) | ((x5 as u128) << 80) | ((x6 as u128) << 72) | ((x7 as u128) << 64) | ((x8 as u128) << 56) | ((x9 as u128) << 48) | ((x10 as u128) << 40) | ((x11 as u128) << 32) | ((x12 as u128) << 24) | ((x13 as u128) << 16) | ((x14 as u128) << 8) | (x15 as u128)) >> 96) as u8) == x3 &&
        (((((x0 as u128) << 120) | ((x1 as u128) << 112) | ((x2 as u128) << 104) | ((x3 as u128) << 96) | ((x4 as u128) << 88) | ((x5 as u128) << 80) | ((x6 as u128) << 72) | ((x7 as u128) << 64) | ((x8 as u128) << 56) | ((x9 as u128) << 48) | ((x10 as u128) << 40) | ((x11 as u128) << 32) | ((x12 as u128) << 24) | ((x13 as u128) << 16) | ((x14 as u128) << 8) | (x15 as u128)) >> 88) as u8) == x4 &&
        (((((x0 as u128) << 120) | ((x1 as u128) << 112) | ((x2 as u128) << 104) | ((x3 as u128) << 96) | ((x4 as u128) << 88) | ((x5 as u128) << 80) | ((x6 as u128) << 72) | ((x7 as u128) << 64) | ((x8 as u128) << 56) | ((x9 as u128) << 48) | ((x10 as u128) << 40) | ((x11 as u128) << 32) | ((x12 as u128) << 24) | ((x13 as u128) << 16) | ((x14 as u128) << 8) | (x15 as u128)) >> 80) as u8) == x5 &&
        (((((x0 as u128) << 120) | ((x1 as u128) << 112) | ((x2 as u128) << 104) | ((x3 as u128) << 96) | ((x4 as u128) << 88) | ((x5 as u128) << 80) | ((x6 as u128) << 72) | ((x7 as u128) << 64) | ((x8 as u128) << 56) | ((x9 as u128) << 48) | ((x10 as u128) << 40) | ((x11 as u128) << 32) | ((x12 as u128) << 24) | ((x13 as u128) << 16) | ((x14 as u128) << 8) | (x15 as u128)) >> 72) as u8) == x6 &&
        (((((x0 as u128) << 120) | ((x1 as u128) << 112) | ((x2 as u128) << 104) | ((x3 as u128) << 96) | ((x4 as u128) << 88) | ((x5 as u128) << 80) | ((x6 as u128) << 72) | ((x7 as u128) << 64) | ((x8 as u128) << 56) | ((x9 as u128) << 48) | ((x10 as u128) << 40) | ((x11 as u128) << 32) | ((x12 as u128) << 24) | ((x13 as u128) << 16) | ((x14 as u128) << 8) | (x15 as u128)) >> 64) as u8) == x7 &&
        (((((x0 as u128) << 120) | ((x1 as u128) << 112) | ((x2 as u128) << 104) | ((x3 as u128) << 96) | ((x4 as u128) << 88) | ((x5 as u128) << 80) | ((x6 as u128) << 72) | ((x7 as u128) << 64) | ((x8 as u128) << 56) | ((x9 as u128) << 48) | ((x10 as u128) << 40) | ((x11 as u128) << 32) | ((x12 as u128) << 24) | ((x13 as u128) << 16) | ((x14 as u128) << 8) | (x15 as u128)) >> 56) as u8) == x8 &&
        (((((x0 as u128) << 120) | ((x1 as u128) << 112) | ((x2 as u128) << 104) | ((x3 as u128) << 96) | ((x4 as u128) << 88) | ((x5 as u128) << 80) | ((x6 as u128) << 72) | ((x7 as u128) << 64) | ((x8 as u128) << 56) | ((x9 as u128) << 48) | ((x10 as u128) << 40) | ((x11 as u128) << 32) | ((x12 as u128) << 24) | ((x13 as u128) << 16) | ((x14 as u128) << 8) | (x15 as u128)) >> 48) as u8) == x9 &&
        (((((x0 as u128) << 120) | ((x1 as u128) << 112) | ((x2 as u128) << 104) | ((x3 as u128) << 96) | ((x4 as u128) << 88) | ((x5 as u128) << 80) | ((x6 as u128) << 72) | ((x7 as u128) << 64) | ((x8 as u128) << 56) | ((x9 as u128) << 48) | ((x10 as u128) << 40) | ((x11 as u128) << 32) | ((x12 as u128) << 24) | ((x13 as u128) << 16) | ((x14 as u128) << 8) | (x15 as u128)) >> 40) as u8) == x10 &&
        (((((x0 as u128) << 120) | ((x1 as u128) << 112) | ((x2 as u128) << 104) | ((x3 as u128) << 96) | ((x4 as u128) << 88) | ((x5 as u128) << 80) | ((x6 as u128) << 72) | ((x7 as u128) << 64) | ((x8 as u128) << 56) | ((x9 as u128) << 48) | ((x10 as u128) << 40) | ((x11 as u128) << 32) | ((x12 as u128) << 24) | ((x13 as u128) << 16) | ((x14 as u128) << 8) | (x15 as u128)) >> 32) as u8) == x11 &&
        (((((x0 as u128) << 120) | ((x1 as u128) << 112) | ((x2 as u128) << 104) | ((x3 as u128) << 96) | ((x4 as u128) << 88) | ((x5 as u128) << 80) | ((x6 as u128) << 72) | ((x7 as u128) << 64) | ((x8 as u128) << 56) | ((x9 as u128) << 48) | ((x10 as u128) << 40) | ((x11 as u128) << 32) | ((x12 as u128) << 24) | ((x13 as u128) << 16) | ((x14 as u128) << 8) | (x15 as u128)) >> 24) as u8) == x12 &&
        (((((x0 as u128) << 120) | ((x1 as u128) << 112) | ((x2 as u128) << 104) | ((x3 as u128) << 96) | ((x4 as u128) << 88) | ((x5 as u128) << 80) | ((x6 as u128) << 72) | ((x7 as u128) << 64) | ((x8 as u128) << 56) | ((x9 as u128) << 48) | ((x10 as u128) << 40) | ((x11 as u128) << 32) | ((x12 as u128) << 24) | ((x13 as u128) << 16) | ((x14 as u128) << 8) | (x15 as u128)) >> 16) as u8) == x13 &&
        (((((x0 as u128) << 120) | ((x1 as u128) << 112) | ((x2 as u128) << 104) | ((x3 as u128) << 96) | ((x4 as u128) << 88) | ((x5 as u128) << 80) | ((x6 as u128) << 72) | ((x7 as u128) << 64) | ((x8 as u128) << 56) | ((x9 as u128) << 48) | ((x10 as u128) << 40) | ((x11 as u128) << 32) | ((x12 as u128) << 24) | ((x13 as u128) << 16) | ((x14 as u128) << 8) | (x15 as u128)) >> 8) as u8) == x14 &&
        ((((x0 as u128) << 120) | ((x1 as u128) << 112) | ((x2 as u128) << 104) | ((x3 as u128) << 96) | ((x4 as u128) << 88) | ((x5 as u128) << 80) | ((x6 as u128) << 72) | ((x7 as u128) << 64) | ((x8 as u128) << 56) | ((x9 as u128) << 48) | ((x10 as u128) << 40) | ((x11 as u128) << 32) | ((x12 as u128) << 24) | ((x13 as u128) << 16) | ((x14 as u128) << 8) | (x15 as u128)) as u8) == x15
    ) by (bit_vector);
    assert(bytes_of(bits_of_bytes(s)) =~= s);
}


impl Uuid {
    /// Whether this UUID sorts strictly before the other, under the byte-wise
    /// ordering of the sixteen-byte forms — which is the numeric ordering of
    /// the bits.
    pub fn is_before(&self, other: &Uuid) -> (r: bool)
        ensures
            r == (self.bits < other.bits),
            r == byte_lex_lt(bytes_of(self.bits), bytes_of(other.bits)),
    {
        proof {
            lemma_order_is_byte_order(self.bits, other.bits);
        }
        self.bits < other.bits
    }

    /// The sixteen bytes of this UUID, most significant first.
    pub fn to_bytes(&self) -> (r: Vec<u8>)
        ensures
            r@ == bytes_of(self.bits),
    {
        let mut r: Vec<u8> = Vec::new();
        r.push((self.bits >> 120) as u8);
        r.push((self.bits >> 112) as u8);
        r.push((self.bits >> 104) as u8);
        r.push((self.bits >> 96) as u8);
        r.push((self.bits >> 88) as u8);
        r.push((self.bits >> 80) as u8);
        r.push((self.bits >> 72) as u8);
        r.push((self.bits >> 64) as u8);
        r.push((self.bits >> 56) as u8);
        r.push((self.bits >> 48) as u8);
        r.push((self.bits >> 40) as u8);
        r.push((self.bits >> 32) as u8);
        r.push((self.bits >> 24) as u8);
        r.push((self.bits >> 16) as u8);
        r.push((self.bits >> 8) as u8);
        r.push(self.bits as u8);
        proof {
            assert(r@ =~= bytes_of(self.bits));
        }
        r
    }

    /// The UUID whose bytes these are, most significant first; sixteen bytes
    /// are required, any other length gives `None`.
    pub fn from_bytes(bytes: &[u8]) -> (r: Option<Uuid>)
        ensures
            bytes@.len() == 16 ==> r == Some(Uuid { bits: bits_of_bytes(bytes@) }),
            bytes@.len() != 16 ==> r is None,
    {
        if bytes.len() != 16 {
            return None;
        }
        let bits: u128 = ((bytes[0] as u128) << 120) | ((bytes[1] as u128) << 112)
            | ((bytes[2] as u128) << 104) | ((bytes[3] as u128) << 96)
            | ((bytes[4] as u128) << 88) | ((bytes[5] as u128) << 80)
            | ((bytes[6] as u128) << 72) | ((bytes[7] as u128) << 64)
            | ((bytes[8] as u128) << 56) | ((bytes[9] as u128) << 48)
            | ((bytes[10] as u128) << 40) | ((bytes[11] as u128) << 32)
            | ((bytes[12] as u128) << 24) | ((bytes[13] as u128) << 16)
            | ((bytes[14] as u128) << 8) | (bytes[15] as u128);
        Some(Uuid { bits })
    }
}

/// Byte-wise comparison, most significant byte first, looking at positions
/// `i` and beyond of two equal-length byte strings: the first differing byte
/// decides, and a string is never below itself.
pub open spec fn lex_lt_from(a: Seq<u8>, b: Seq<u8>, i: int) -> bool
    decreases a.len() - i,
{
    if i < 0 || i >= a.len() || a.len() != b.len() {
        false
    } else {
        a[i] < b[i] || (a[i] == b[i] && lex_lt_from(a, b, i + 1))
    }
}

/// Byte-wise order of two byte strings of equal length, most significant
/// byte first.
pub open spec fn byte_lex_lt(a: Seq<u8>, b: Seq<u8>) -> bool {
    lex_lt_from(a, b, 0)
}

/// Byte-wise order means exactly this: some position holds a smaller byte on
/// the left, and every position before it holds equal bytes — the first
/// differing byte decides.
pub proof fn lemma_lex_lt_first_difference(a: Seq<u8>, b: Seq<u8>, i: int)
    requires
        a.len() == b.len(),
        0 <= i <= a.len(),
    ensures
        lex_lt_from(a, b, i) <==> exists|k: int|
            i <= k < a.len() && a[k] < b[k] && (forall|j: int| i <= j < k ==> a[j] == b[j]),
    decreases a.len() - i,
{
    if i == a.len() {
        assert(!lex_lt_from(a, b, i));
        assert(!(exists|k: int|
            i <= k < a.len() && a[k] < b[k] && (forall|j: int| i <= j < k ==> a[j] == b[j])));
    } else {
        lemma_lex_lt_first_difference(a, b, i + 1);
        if a[i] < b[i] {
            assert(i <= i < a.len() && a[i] < b[i] && (forall|j: int|
                i <= j < i ==> a[j] == b[j]));
        } else if a[i] == b[i] {
            if lex_lt_from(a, b, i) {
                let k = choose|k: int|
                    i + 1 <= k < a.len() && a[k] < b[k] && (forall|j: int|
                        i + 1 <= j < k ==> a[j] == b[j]);
                assert(forall|j: int| i <= j < k ==> a[j] == b[j]);
                assert(i <= k < a.len() && a[k] < b[k] && (forall|j: int|
                    i <= j < k ==> a[j] == b[j]));
            }
            if exists|k: int|
                i <= k < a.len() && a[k] < b[k] && (forall|j: int| i <= j < k ==> a[j] == b[j]) {
                let k = choose|k: int|
                    i <= k < a.len() && a[k] < b[k] && (forall|j: int|
                        i <= j < k ==> a[j] == b[j]);
                assert(k != i);
                assert(i + 1 <= k < a.len() && a[k] < b[k] && (forall|j: int|
                    i + 1 <= j < k ==> a[j] == b[j]));
                assert(lex_lt_from(a, b, i + 1));
            }
        } else {
            assert(!lex_lt_from(a, b, i));
            if exists|k: int|
                i <= k < a.len() && a[k] < b[k] && (forall|j: int| i <= j < k ==> a[j] == b[j]) {
                let k = choose|k: int|
                    i <= k < a.len() && a[k] < b[k] && (forall|j: int|
                        i <= j < k ==> a[j] == b[j]);
                if k == i {
                    assert(false);
                } else {
                    assert(a[i] == b[i]);
                    assert(false);
                }
            }
        }
    }
}

/// The numeric order of two UUIDs is exactly the byte-wise order of their
/// sixteen-byte forms, compared from the most significant byte down.
pub proof fn lemma_order_is_byte_order(u1: u128, u2: u128)
    ensures
        (u1 < u2) <==> byte_lex_lt(bytes_of(u1), bytes_of(u2)),
{
    let a = bytes_of(u1);
    let b = bytes_of(u2);
    assert(lex_lt_from(a, b, 15) <==> (a[15] < b[15] || (a[15] == b[15] && lex_lt_from(a, b, 16))));
    assert(lex_lt_from(a, b, 14) <==> (a[14] < b[14] || (a[14] == b[14] && lex_lt_from(a, b, 15))));
    assert(lex_lt_from(a, b, 13) <==> (a[13] < b[13] || (a[13] == b[13] && lex_lt_from(a, b, 14))));
    assert(lex_lt_from(a, b, 12) <==> (a[12] < b[12] || (a[12] == b[12] && lex_lt_from(a, b, 13))));
    assert(lex_lt_from(a, b, 11) <==> (a[11] < b[11] || (a[11] == b[11] && lex_lt_from(a, b, 12))));
    assert(lex_lt_from(a, b, 10) <==> (a[10] < b[10] || (a[10] == b[10] && lex_lt_from(a, b, 11))));
    assert(lex_lt_from(a, b, 9) <==> (a[9] < b[9] || (a[9] == b[9] && lex_lt_from(a, b, 10))));
    assert(lex_lt_from(a, b, 8) <==> (a[8] < b[8] || (a[8] == b[8] && lex_lt_from(a, b, 9))));
    assert(lex_lt_from(a, b, 7) <==> (a[7] < b[7] || (a[7] == b[7] && lex_lt_from(a, b, 8))));
    assert(lex_lt_from(a, b, 6) <==> (a[6] < b[6] || (a[6] == b[6] && lex_lt_from(a, b, 7))));
    assert(lex_lt_from(a, b, 5) <==> (a[5] < b[5] || (a[5] == b[5] && lex_lt_from(a, b, 6))));
    assert(lex_lt_from(a, b, 4) <==> (a[4] < b[4] || (a[4] == b[4] && lex_lt_from(a, b, 5))));
    assert(lex_lt_from(a, b, 3) <==> (a[3] < b[3] || (a[3] == b[3] && lex_lt_from(a, b, 4))));
    assert(lex_lt_from(a, b, 2) <==> (a[2] < b[2] || (a[2] == b[2] && lex_lt_from(a, b, 3))));
    assert(lex_lt_from(a, b, 1) <==> (a[1] < b[1] || (a[1] == b[1] && lex_lt_from(a, b, 2))));
    assert(lex_lt_from(a, b, 0) <==> (a[0] < b[0] || (a[0] == b[0] && lex_lt_from(a, b, 1))));
    assert((u1 < u2) <==> (((u1 >> 120) as u8) < ((u2 >> 120) as u8) || (((u1 >> 120) as u8) == ((u2 >> 120) as u8) && (((u1 >> 112) as u8) < ((u2 >> 112) as u8) || (((u1 >> 112) as u8) == ((u2 >> 112) as u8) && (((u1 >> 104) as u8) < ((u2 >> 104) as u8) || (((u1 >> 104) as u8) == ((u2 >> 104) as u8) && (((u1 >> 96) as u8) < ((u2 >> 96) as u8) || (((u1 >> 96) as u8) == ((u2 >> 96) as u8) && (((u1 >> 88) as u8) < ((u2 >> 88) as u8) || (((u1 >> 88) as u8) == ((u2 >> 88) as u8) && (((u1 >> 80) as u8) < ((u2 >> 80) as u8) || (((u1 >> 80) as u8) == ((u2 >> 80) as u8) && (((u1 >> 72) as u8) < ((u2 >> 72) as u8) || (((u1 >> 72) as u8) == ((u2 >> 72) as u8) && (((u1 >> 64) as u8) < ((u2 >> 64) as u8) || (((u1 >> 64) as u8) == ((u2 >> 64) as u8) && (((u1 >> 56) as u8) < ((u2 >> 56) as u8) || (((u1 >> 56) as u8) == ((u2 >> 56) as u8) && (((u1 >> 48) as u8) < ((u2 >> 48) as u8) || (((u1 >> 48) as u8) == ((u2 >> 48) as u8) && (((u1 >> 40) as u8) < ((u2 >> 40) as u8) || (((u1 >> 40) as u8) == ((u2 >> 40) as u8) && (((u1 >> 32) as u8) < ((u2 >> 32) as u8) || (((u1 >> 32) as u8) == ((u2 >> 32) as u8) && (((u1 >> 24) as u8) < ((u2 >> 24) as u8) || (((u1 >> 24) as u8) == ((u2 >> 24) as u8) && (((u1 >> 16) as u8) < ((u2 >> 16) as u8) || (((u1 >> 16) as u8) == ((u2 >> 16) as u8) && (((u1 >> 8) as u8) < ((u2 >> 8) as u8) || (((u1 >> 8) as u8) == ((u2 >> 8) as u8) && ((u1 as u8) < (u2 as u8))))))))))))))))))))))))))))))))) by (bit_vector);
}

/// The version field of any UUID, 0 to 15. Pure and total.
pub fn extract_version(u: &Uuid) -> (r: u8)
    ensures
        r == version_of(u.bits),
        r <= 15,
{
    proof {
        let b = u.bits;
        assert((b >> 76) & 0xF < 16) by (bit_vector);
    }
    ((u.bits >> 76) & 0xF) as u8
}

/// The variant family of any UUID, by prefix match on the top three bits of
/// byte 8. Pure and total.
pub fn extract_variant(u: &Uuid) -> (r: UuidVariant)
    ensures
        r == variant_of(u.bits),
{
    proof {
        let b = u.bits;
        assert((b >> 61) & 0x7 < 8) by (bit_vector);
    }
    let p: u8 = ((u.bits >> 61) & 0x7) as u8;
    if p < 4 {
        UuidVariant::Ncs
    } else if p < 6 {
        UuidVariant::Rfc4122
    } else if p == 6 {
        UuidVariant::Microsoft
    } else {
        UuidVariant::Future
    }
}

/// The timestamp embedded in a version-7 UUID, at millisecond resolution:
/// sub-millisecond payload bits are never reinterpreted as extra precision.
/// A UUID of any other version has no timestamp reading and yields `None`.
pub fn extract_timestamp(u: &Uuid) -> (r: Option<Timestamp>)
    ensures
        r == decode_of(u.bits),
        version_of(u.bits) == 7 ==> r == Some(decoded_timestamp_of(u.bits)),
        version_of(u.bits) != 7 ==> r is None,
        r matches Some(ts) ==> ts.wf(),
{
    let v = extract_version(u);
    if v != 7 {
        None
    } else {
        proof {
            let b = u.bits;
            assert(b >> 80 < 0x1_0000_0000_0000) by (bit_vector);
        }
        let millis: u64 = (u.bits >> 80) as u64;
        let secs: u64 = millis / 1000;
        let nanos: u32 = ((millis % 1000) as u32) * 1_000_000;
        Some(Timestamp { epoch_seconds: secs, nanoseconds: nanos })
    }
}

} // verus!

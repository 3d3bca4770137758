use uuid_v7::codec::{self, Uuid, UuidVariant};
use uuid_v7::timestamp::{to_uuid_timestamp_buildpart, Timestamp};

fn ts(epoch_seconds: u64, nanoseconds: u32) -> Timestamp {
    Timestamp { epoch_seconds, nanoseconds }
}

#[test]
fn version_of_generated_is_seven() {
    let t = ts(1_330_837_567, 123_456_789);
    let u = codec::generate(&t);
    assert_eq!(codec::extract_version(&u), 7);
    assert_eq!(codec::extract_variant(&u), UuidVariant::Rfc4122);
    let m = codec::generate_min(&t);
    let x = codec::generate_max(&t);
    assert_eq!(codec::extract_version(&m), 7);
    assert_eq!(codec::extract_version(&x), 7);
}

#[test]
fn round_trip_truncates_to_millisecond() {
    let t = ts(1_330_837_567, 123_456_789);
    let u = codec::generate(&t);
    let back = codec::extract_timestamp(&u).unwrap();
    assert_eq!(back, ts(1_330_837_567, 123_000_000));
}

#[test]
fn round_trip_floors_never_rounds() {
    // 999_999 nanoseconds are still 0 whole milliseconds
    let t = ts(7, 999_999);
    let back = codec::extract_timestamp(&codec::generate(&t)).unwrap();
    assert_eq!(back, ts(7, 0));
    // 999_999_999 nanoseconds floor to 999 milliseconds, not up to a second
    let t2 = ts(7, 999_999_999);
    let back2 = codec::extract_timestamp(&codec::generate(&t2)).unwrap();
    assert_eq!(back2, ts(7, 999_000_000));
}

#[test]
fn boundary_ordering() {
    let t = ts(1_330_837_567, 123_456_789);
    let min = codec::generate_min(&t);
    let gen = codec::generate(&t);
    let max = codec::generate_max(&t);
    assert!(min <= gen);
    assert!(gen <= max);
    assert!(min < max);
}

#[test]
fn cross_millisecond_ordering() {
    // one millisecond apart
    let t1 = ts(1_330_837_567, 123_456_789);
    let t2 = ts(1_330_837_567, 124_000_000);
    assert!(codec::generate_max(&t1) < codec::generate_min(&t2));
    // a second apart
    let t3 = ts(1_330_837_568, 0);
    assert!(codec::generate_max(&t2) < codec::generate_min(&t3));
    assert!(codec::generate(&t1) < codec::generate(&t3));
}

#[test]
fn non_v7_extract_timestamp_is_none() {
    let t = ts(1_330_837_567, 123_456_789);
    let u = codec::generate(&t);
    // the same bits with the version nibble forced to 4
    let v4 = Uuid { bits: (u.bits & !(0xFu128 << 76)) | (0x4u128 << 76) };
    assert_eq!(codec::extract_version(&v4), 4);
    assert_eq!(codec::extract_timestamp(&v4), None);
    // version 7 on the untouched value still decodes
    assert!(codec::extract_timestamp(&u).is_some());
}

#[test]
fn boundaries_decode_to_same_millisecond() {
    let t = ts(1_330_837_567, 123_456_789);
    let min = codec::generate_min(&t);
    let max = codec::generate_max(&t);
    assert_eq!(codec::extract_timestamp(&min).unwrap(), ts(1_330_837_567, 123_000_000));
    assert_eq!(codec::extract_timestamp(&max).unwrap(), ts(1_330_837_567, 123_000_000));
    assert!(min < max);
}

#[test]
fn decode_twice_is_identical() {
    let t = ts(1_330_837_567, 123_456_789);
    let u = codec::generate(&t);
    assert_eq!(codec::extract_timestamp(&u), codec::extract_timestamp(&u));
    let v4 = Uuid { bits: (u.bits & !(0xFu128 << 76)) | (0x4u128 << 76) };
    assert_eq!(codec::extract_timestamp(&v4), codec::extract_timestamp(&v4));
}

#[test]
fn variant_classification() {
    assert_eq!(codec::extract_variant(&Uuid { bits: 0 }), UuidVariant::Ncs);
    assert_eq!(codec::extract_variant(&Uuid { bits: 0x2u128 << 62 }), UuidVariant::Rfc4122);
    assert_eq!(
        codec::extract_variant(&Uuid { bits: (0x2u128 << 62) | (0x1u128 << 61) }),
        UuidVariant::Rfc4122
    );
    assert_eq!(codec::extract_variant(&Uuid { bits: 0x3u128 << 62 }), UuidVariant::Microsoft);
    assert_eq!(
        codec::extract_variant(&Uuid { bits: (0x3u128 << 62) | (0x1u128 << 61) }),
        UuidVariant::Future
    );
}

#[test]
fn encode_places_version_and_variant_bits() {
    let t = ts(1_330_837_567, 123_456_789);
    let payload: [u8; 10] = [0xAB, 0xCD, 0xEF, 1, 2, 3, 4, 5, 6, 7];
    let u = codec::encode(&t, &payload);
    let b = u.to_bytes();
    assert_eq!(b.len(), 16);
    assert_eq!(b[6] >> 4, 0x7);
    assert_eq!(b[8] >> 6, 0b10);
    // the low nibble of byte 6 and byte 7 carry payload bits
    assert_eq!(b[6] & 0x0F, 0xAB & 0x0F);
    assert_eq!(b[7], 0xCD);
    assert_eq!(b[8] & 0x3F, 0xEF & 0x3F);
    assert_eq!(&b[9..], &[1, 2, 3, 4, 5, 6, 7]);
}

#[test]
fn byte_round_trip() {
    let t = ts(1_330_837_567, 123_456_789);
    let u = codec::generate(&t);
    let b = u.to_bytes();
    assert_eq!(b.len(), 16);
    assert_eq!(Uuid::from_bytes(&b), Some(u));
    assert_eq!(Uuid::from_bytes(&b[..15]), None);
    assert_eq!(Uuid::from_bytes(&[]), None);
}

#[test]
fn byte_order_is_numeric_order() {
    let pairs = [
        (ts(0, 0), ts(0, 1_000_000)),
        (ts(1_330_837_567, 123_456_789), ts(1_330_837_567, 124_000_000)),
        (ts(1_330_837_567, 0), ts(1_330_837_568, 0)),
    ];
    for (t1, t2) in pairs {
        let a = codec::generate_max(&t1);
        let b = codec::generate_min(&t2);
        assert!(a.bits < b.bits);
        // Vec<u8> comparison is exactly byte-wise lexicographic
        assert!(a.to_bytes() < b.to_bytes());
    }
}

#[test]
fn millis_saturate_at_u64_max() {
    assert_eq!(to_uuid_timestamp_buildpart(ts(u64::MAX, 999_999_999)), u64::MAX);
    // largest epoch whose thousandfold still fits
    let e = 18_446_744_073_709_551u64;
    assert_eq!(to_uuid_timestamp_buildpart(ts(e, 614_000_000)), u64::MAX - 1);
    assert_eq!(to_uuid_timestamp_buildpart(ts(e, 615_000_000)), u64::MAX);
    assert_eq!(to_uuid_timestamp_buildpart(ts(e, 616_000_000)), u64::MAX);
}

#[test]
fn millis_truncate_beyond_48_bits() {
    // this timestamp's millisecond count is exactly 2^48, so the field wraps to 0
    let t = ts(281_474_976_710, 656_000_000);
    let back = codec::extract_timestamp(&codec::generate_min(&t)).unwrap();
    assert_eq!(back, ts(0, 0));
    // one millisecond earlier still fits the field
    let t2 = ts(281_474_976_710, 655_000_000);
    let back2 = codec::extract_timestamp(&codec::generate_min(&t2)).unwrap();
    assert_eq!(back2, ts(281_474_976_710, 655_000_000));
}

#[test]
fn epoch_zero_encodes_and_decodes() {
    let t = ts(0, 0);
    let u = codec::generate(&t);
    assert_eq!(codec::extract_version(&u), 7);
    assert_eq!(codec::extract_timestamp(&u).unwrap(), ts(0, 0));
    let min = codec::generate_min(&t);
    let b = min.to_bytes();
    assert_eq!(&b[..6], &[0, 0, 0, 0, 0, 0]);
    assert_eq!(&b[6..], &[0x70, 0, 0x80, 0, 0, 0, 0, 0, 0, 0]);
}

#[test]
fn generated_payloads_differ() {
    // two calls at one millisecond are almost certainly distinct
    let t = ts(1_330_837_567, 123_456_789);
    let u1 = codec::generate(&t);
    let u2 = codec::generate(&t);
    let u3 = codec::generate(&t);
    assert!(u1 != u2 || u2 != u3);
}

use chrono::{Datelike, Timelike};
use uuid_v7::codec::{self, Uuid};
use uuid_v7::timestamp::{from_calendar, to_calendar, CalendarTime, Timestamp};

fn ts(epoch_seconds: u64, nanoseconds: u32) -> Timestamp {
    Timestamp { epoch_seconds, nanoseconds }
}

#[test]
fn encoding_matches_uuid_crate() {
    let t = ts(1_330_837_567, 123_456_789);
    let millis = 1_330_837_567_123u64;
    let payloads: [[u8; 10]; 4] = [
        [0; 10],
        [0xFF; 10],
        [1, 2, 3, 4, 5, 6, 7, 8, 9, 10],
        [0xAB, 0xCD, 0xEF, 0x12, 0x34, 0x56, 0x78, 0x9A, 0xBC, 0xDE],
    ];
    for payload in payloads {
        let ours = codec::encode(&t, &payload);
        let theirs = uuid::Builder::from_unix_timestamp_millis(millis, &payload).into_uuid();
        assert_eq!(ours.to_bytes(), theirs.as_bytes().to_vec());
    }
}

#[test]
fn boundaries_match_uuid_crate() {
    let t = ts(1_330_837_567, 123_456_789);
    let millis = 1_330_837_567_123u64;
    let min_theirs = uuid::Builder::from_unix_timestamp_millis(millis, &[0; 10]).into_uuid();
    let max_theirs = uuid::Builder::from_unix_timestamp_millis(millis, &[0xFF; 10]).into_uuid();
    assert_eq!(codec::generate_min(&t).to_bytes(), min_theirs.as_bytes().to_vec());
    assert_eq!(codec::generate_max(&t).to_bytes(), max_theirs.as_bytes().to_vec());
}

#[test]
fn decoding_matches_uuid_crate() {
    let theirs = uuid::Uuid::new_v7(uuid::Timestamp::from_unix(
        uuid::NoContext,
        1_330_837_567,
        123_456_789,
    ));
    let ours = Uuid::from_bytes(theirs.as_bytes()).unwrap();
    assert_eq!(codec::extract_version(&ours) as usize, theirs.get_version_num());
    let decoded = codec::extract_timestamp(&ours).unwrap();
    let (secs, nanos) = theirs.get_timestamp().unwrap().to_unix();
    assert_eq!(decoded.epoch_seconds, secs);
    assert_eq!(decoded.nanoseconds, nanos);
}

#[test]
fn non_v7_versions_match_uuid_crate() {
    let raw: [u8; 16] = [1, 2, 3, 4, 5, 6, 7, 8, 9, 10, 11, 12, 13, 14, 15, 16];
    let v4 = uuid::Builder::from_random_bytes(raw).into_uuid();
    let ours = Uuid::from_bytes(v4.as_bytes()).unwrap();
    assert_eq!(codec::extract_version(&ours) as usize, v4.get_version_num());
    assert_eq!(codec::extract_timestamp(&ours), None);
    let nil = uuid::Uuid::nil();
    let ours_nil = Uuid::from_bytes(nil.as_bytes()).unwrap();
    assert_eq!(codec::extract_version(&ours_nil), 0);
    assert_eq!(codec::extract_timestamp(&ours_nil), None);
}

#[test]
fn calendar_matches_chrono() {
    let epochs: [u64; 7] = [
        0,
        86_399,
        86_400,
        951_827_696,
        1_330_837_567,
        4_102_444_800,
        253_402_300_799,
    ];
    for epoch in epochs {
        let c = to_calendar(&ts(epoch, 0)).unwrap();
        let dt = chrono::DateTime::from_timestamp(epoch as i64, 0).unwrap();
        assert_eq!(c.year, dt.year(), "for {}", epoch);
        assert_eq!(c.month as u32, dt.month(), "for {}", epoch);
        assert_eq!(c.day as u32, dt.day(), "for {}", epoch);
        assert_eq!(c.hour as u32, dt.hour(), "for {}", epoch);
        assert_eq!(c.minute as u32, dt.minute(), "for {}", epoch);
        assert_eq!(c.second as u32, dt.second(), "for {}", epoch);
        // the normalizer agrees with chrono's own second count
        let t2 = from_calendar(&c).unwrap();
        assert_eq!(t2.epoch_seconds as i64, dt.timestamp(), "for {}", epoch);
    }
}

#[test]
fn normalizer_matches_chrono_forward() {
    let dates: [(i32, u8, u8, u8, u8, u8); 5] = [
        (1970, 1, 1, 0, 0, 0),
        (1999, 12, 31, 23, 59, 59),
        (2000, 2, 29, 12, 30, 45),
        (2012, 3, 4, 5, 6, 7),
        (2262, 4, 11, 23, 47, 16),
    ];
    for (y, mo, d, h, mi, s) in dates {
        let c = CalendarTime {
            year: y,
            month: mo,
            day: d,
            hour: h,
            minute: mi,
            second: s,
            nanosecond: 0,
        };
        let t = from_calendar(&c).unwrap();
        let dt = chrono::NaiveDate::from_ymd_opt(y, mo as u32, d as u32)
            .unwrap()
            .and_hms_opt(h as u32, mi as u32, s as u32)
            .unwrap()
            .and_utc();
        assert_eq!(t.epoch_seconds as i64, dt.timestamp(), "for {:?}", c);
    }
}

use ltntstools::counter::bumped;
use ltntstools::packet::{
    adaptation_present, continuity_counter, discontinuity_indicator, payload, payload_present,
    payload_unit_start, pcr, pcr_present, pid,
};
use ltntstools::text::{push_decimal, push_signed};
use ltntstools::{TS_PACKET_LEN, TS_SYNC_BYTE};

fn blank(header: [u8; 4]) -> Vec<u8> {
    let mut p = header.to_vec();
    p.extend((4..188).map(|i| i as u8));
    p
}

#[test]
fn the_packet_is_188_bytes_and_starts_with_0x47() {
    assert_eq!(TS_PACKET_LEN, 188);
    assert_eq!(TS_SYNC_BYTE, 0x47);
}

#[test]
fn the_identifier_is_thirteen_bits() {
    assert_eq!(pid(&blank([0x47, 0x00, 0x00, 0x10])), 0);
    assert_eq!(pid(&blank([0x47, 0x00, 0x31, 0x10])), 0x31);
    assert_eq!(pid(&blank([0x47, 0x1f, 0xff, 0x10])), 0x1fff);
    /* the three bits above it are flags */
    assert_eq!(pid(&blank([0x47, 0xf0, 0x00, 0x10])), 0x1000);
    assert_eq!(pid(&blank([0x47, 0xe1, 0x23, 0x10])), 0x0123);
}

#[test]
fn the_flags_of_the_header() {
    let p = blank([0x47, 0x40, 0x00, 0x10]);
    assert!(payload_unit_start(&p));
    assert!(payload_present(&p));
    assert!(!adaptation_present(&p));
    let p = blank([0x47, 0xbf, 0xff, 0x20]);
    assert!(!payload_unit_start(&p));
    assert!(!payload_present(&p));
    assert!(adaptation_present(&p));
    let p = blank([0x47, 0x00, 0x00, 0x3f]);
    assert!(payload_present(&p));
    assert!(adaptation_present(&p));
    let p = blank([0x47, 0x00, 0x00, 0xcf]);
    assert!(!payload_present(&p));
    assert!(!adaptation_present(&p));
}

#[test]
fn the_continuity_counter_is_four_bits() {
    for cc in 0..16u8 {
        assert_eq!(continuity_counter(&blank([0x47, 0, 0, 0xf0 | cc])), cc);
        assert_eq!(continuity_counter(&blank([0x47, 0, 0, cc])), cc);
    }
}

#[test]
fn the_payload_stands_behind_header_and_adaptation_field() {
    let p = blank([0x47, 0, 0, 0x10]);
    assert_eq!(payload(&p), &p[4..]);
    let mut p = blank([0x47, 0, 0, 0x30]);
    p[4] = 0;
    assert_eq!(payload(&p), &p[5..]);
    p[4] = 100;
    assert_eq!(payload(&p), &p[105..]);
    p[4] = 182;
    assert_eq!(payload(&p), &p[187..]);
    /* a field that leaves no room */
    p[4] = 183;
    assert!(payload(&p).is_empty());
    p[4] = 255;
    assert!(payload(&p).is_empty());
    /* no payload announced */
    let p = blank([0x47, 0, 0, 0x20]);
    assert!(payload(&p).is_empty());
    let p = blank([0x47, 0, 0, 0x00]);
    assert!(payload(&p).is_empty());
}

#[test]
fn the_discontinuity_indicator() {
    let mut p = blank([0x47, 0, 0, 0x30]);
    p[4] = 1;
    p[5] = 0x80;
    assert!(discontinuity_indicator(&p));
    p[5] = 0x7f;
    assert!(!discontinuity_indicator(&p));
    /* an empty field has no flags */
    p[4] = 0;
    p[5] = 0x80;
    assert!(!discontinuity_indicator(&p));
    /* no field at all */
    let mut p = blank([0x47, 0, 0, 0x10]);
    p[4] = 1;
    p[5] = 0x80;
    assert!(!discontinuity_indicator(&p));
}

#[test]
fn the_program_clock_reference() {
    let mut p = blank([0x47, 0, 0x31, 0x30]);
    p[4] = 7;
    p[5] = 0x10;
    p[6..12].copy_from_slice(&[0, 0, 0, 0, 0x7e, 0]);
    assert!(pcr_present(&p));
    assert_eq!(pcr(&p), Some(0));
    /* base 1, extension 0 */
    p[6..12].copy_from_slice(&[0, 0, 0, 0, 0xfe, 0]);
    assert_eq!(pcr(&p), Some(300));
    /* base 0, extension 299 */
    p[6..12].copy_from_slice(&[0, 0, 0, 0, 0x7f, 0x2b]);
    assert_eq!(pcr(&p), Some(299));
    /* the largest base, the largest extension */
    p[6..12].copy_from_slice(&[0xff, 0xff, 0xff, 0xff, 0xff, 0x2b]);
    assert_eq!(pcr(&p), Some(((1u64 << 33) - 1) * 300 + 299));
    /* one second: base 90000 */
    p[6..12].copy_from_slice(&[0x00, 0x00, 0xaf, 0xc8, 0x7e, 0x00]);
    assert_eq!(pcr(&p), Some(27_000_000));
    /* the flag is not set */
    p[5] = 0xef;
    assert!(!pcr_present(&p));
    assert_eq!(pcr(&p), None);
    /* the field is too short */
    p[5] = 0x10;
    p[4] = 6;
    assert_eq!(pcr(&p), None);
    /* there is no field */
    p[4] = 7;
    p[3] = 0x10;
    assert_eq!(pcr(&p), None);
}

#[test]
fn a_counter_stops_at_its_maximum() {
    assert_eq!(bumped(0), 1);
    assert_eq!(bumped(41), 42);
    assert_eq!(bumped(u64::MAX - 1), u64::MAX);
    assert_eq!(bumped(u64::MAX), u64::MAX);
}

#[test]
fn numbers_as_text() {
    let mut out = String::from("n=");
    push_decimal(&mut out, 0);
    out.push(',');
    push_decimal(&mut out, 9);
    out.push(',');
    push_decimal(&mut out, 10);
    out.push(',');
    push_decimal(&mut out, 1234567890);
    out.push(',');
    push_decimal(&mut out, u64::MAX);
    assert_eq!(out, "n=0,9,10,1234567890,18446744073709551615");
    let mut out = String::new();
    push_signed(&mut out, 0);
    out.push(' ');
    push_signed(&mut out, -1);
    out.push(' ');
    push_signed(&mut out, i64::MAX);
    out.push(' ');
    push_signed(&mut out, i64::MIN);
    assert_eq!(out, "0 -1 9223372036854775807 -9223372036854775808");
}

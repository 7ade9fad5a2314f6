use ltntstools::pes::{optional_header, parse_pes, PesPacket};

fn stamp(prefix: u8, value: i64) -> [u8; 5] {
    [
        (prefix << 4) | ((((value >> 30) & 7) as u8) << 1) | 1,
        (value >> 22) as u8,
        ((((value >> 15) & 0x7f) as u8) << 1) | 1,
        (value >> 7) as u8,
        (((value & 0x7f) as u8) << 1) | 1,
    ]
}

/// A unit with the optional header: time stamps as given, `stuffing` bytes
/// of header stuffing, and the payload.
fn unit(
    stream_id: u8,
    length: u16,
    pts: Option<i64>,
    dts: Option<i64>,
    stuffing: usize,
    payload: &[u8],
) -> Vec<u8> {
    let flags = match (pts, dts) {
        (Some(_), Some(_)) => 0xc0,
        (Some(_), None) => 0x80,
        _ => 0x00,
    };
    let mut header = Vec::new();
    if let Some(p) = pts {
        header.extend_from_slice(&stamp(if dts.is_some() { 3 } else { 2 }, p));
    }
    if let (Some(_), Some(d)) = (pts, dts) {
        header.extend_from_slice(&stamp(1, d));
    }
    header.resize(header.len() + stuffing, 0xff);
    let mut u = vec![0, 0, 1, stream_id, (length >> 8) as u8, length as u8, 0x80, flags, header.len() as u8];
    u.extend_from_slice(&header);
    u.extend_from_slice(payload);
    u
}

#[test]
fn a_blank_packet() {
    let p = PesPacket::new();
    assert_eq!(p.stream_id, 0);
    assert_eq!(p.packet_length, 0);
    assert_eq!(p.pts, None);
    assert_eq!(p.dts, None);
    assert!(p.payload.is_empty());
    assert!(!p.is_audio());
    assert!(!p.is_video());
    let d = PesPacket::default();
    assert_eq!(format!("{:?}", d), format!("{:?}", p));
}

#[test]
fn audio_and_video_by_stream_id() {
    for id in 0..=255u8 {
        let mut p = PesPacket::new();
        p.stream_id = id;
        assert_eq!(p.is_audio(), (0xc0..=0xdf).contains(&id), "id {:#x}", id);
        assert_eq!(p.is_video(), (0xe0..=0xef).contains(&id), "id {:#x}", id);
    }
}

#[test]
fn a_video_unit_with_a_presentation_time() {
    let u = unit(0xe0, 0, Some(3591437680), None, 0, &[1, 2, 3, 4]);
    let p = parse_pes(&u).unwrap();
    assert_eq!(p.stream_id, 0xe0);
    assert_eq!(p.packet_length, 0);
    assert_eq!(p.pts, Some(3591437680));
    assert_eq!(p.dts, None);
    assert_eq!(p.payload, vec![1, 2, 3, 4]);
    assert!(p.is_video());
    assert!(!p.is_audio());
}

#[test]
fn known_time_stamp_bytes() {
    /* 0x21 0x00 0x01 0x00 0x01 is the presentation time 0 */
    let mut u = vec![0, 0, 1, 0xc0, 0, 8, 0x80, 0x80, 5, 0x21, 0x00, 0x01, 0x00, 0x01];
    assert_eq!(parse_pes(&u).unwrap().pts, Some(0));
    /* all value bits set is the largest: 2^33 - 1 */
    u[9..14].copy_from_slice(&[0x2f, 0xff, 0xff, 0xff, 0xff]);
    assert_eq!(parse_pes(&u).unwrap().pts, Some(0x1_ffff_ffff));
    /* the marker bits and the prefix are no part of the value */
    u[9..14].copy_from_slice(&[0xf0, 0x00, 0x00, 0x00, 0x00]);
    assert_eq!(parse_pes(&u).unwrap().pts, Some(0));
    /* 90000 ticks: one second */
    u[9..14].copy_from_slice(&[0x21, 0x00, 0x05, 0xbf, 0x21]);
    assert_eq!(parse_pes(&u).unwrap().pts, Some(90000));
}

#[test]
fn both_time_stamps() {
    let u = unit(0xe3, 0, Some(0x1_2345_6789), Some(0x1_2345_0000), 3, &[9; 50]);
    let p = parse_pes(&u).unwrap();
    assert_eq!(p.pts, Some(0x1_2345_6789));
    assert_eq!(p.dts, Some(0x1_2345_0000));
    assert_eq!(p.payload, vec![9; 50]);
}

#[test]
fn an_audio_unit_of_announced_length() {
    let payload = [7u8; 20];
    let u = unit(0xc0, 3 + 5 + 20, Some(12345), None, 0, &payload);
    assert_eq!(u.len(), 6 + 28);
    let p = parse_pes(&u).unwrap();
    assert_eq!(p.packet_length, 28);
    assert!(p.is_audio());
    assert_eq!(p.pts, Some(12345));
    assert_eq!(p.payload, payload.to_vec());
}

#[test]
fn no_time_stamps_and_header_stuffing() {
    let u = unit(0xbd, 0, None, None, 4, &[1]);
    let p = parse_pes(&u).unwrap();
    assert_eq!((p.pts, p.dts), (None, None));
    assert_eq!(p.payload, vec![1]);
    let bare = unit(0xe0, 0, None, None, 0, &[]);
    assert_eq!(bare.len(), 9);
    assert!(parse_pes(&bare).unwrap().payload.is_empty());
}

#[test]
fn streams_without_the_optional_header() {
    for id in [0xbcu8, 0xbe, 0xbf, 0xf0, 0xf1, 0xf2, 0xf8, 0xff] {
        assert!(!optional_header(id));
        let u = [0, 0, 1, id, 0, 3, 0xaa, 0xbb, 0xcc];
        let p = parse_pes(&u).unwrap();
        assert_eq!(p.stream_id, id);
        assert_eq!(p.packet_length, 3);
        assert_eq!((p.pts, p.dts), (None, None));
        assert_eq!(p.payload, vec![0xaa, 0xbb, 0xcc]);
    }
    assert!(optional_header(0xe0));
    assert!(optional_header(0xc0));
    assert!(optional_header(0xbd));
}

#[test]
fn broken_headers_are_none() {
    let good = unit(0xe0, 0, Some(5), Some(4), 0, &[1, 2, 3]);
    assert!(parse_pes(&good).is_some());
    /* no start code */
    for i in 0..3 {
        let mut u = good.clone();
        u[i] ^= 1;
        assert!(parse_pes(&u).is_none());
    }
    /* too short for the header */
    for len in 0..19 {
        assert!(parse_pes(&good[..len]).is_none(), "{} bytes", len);
    }
    assert!(parse_pes(&good[..19]).is_some());
    /* the marker bits */
    for marker in [0x00u8, 0x40, 0xc0] {
        let mut u = good.clone();
        u[6] = marker;
        assert!(parse_pes(&u).is_none());
    }
    /* the forbidden flags */
    let mut u = good.clone();
    u[7] = 0x40;
    assert!(parse_pes(&u).is_none());
    /* a header too short for its time stamps */
    let mut u = good.clone();
    u[8] = 9;
    assert!(parse_pes(&u).is_none());
    let mut u = unit(0xe0, 0, Some(5), None, 0, &[1, 2, 3]);
    u[8] = 4;
    assert!(parse_pes(&u).is_none());
    /* a header longer than the unit */
    let mut u = good.clone();
    u[8] = 14;
    assert!(parse_pes(&u).is_none());
    u[8] = 13;
    assert!(parse_pes(&u).unwrap().payload.is_empty());
}

#[test]
fn the_dump_of_a_packet() {
    let p = parse_pes(&unit(0xe0, 0, Some(3591437680), Some(3591434080), 0, &[0; 1000])).unwrap();
    assert_eq!(
        p.dump("  video: "),
        "  video: stream_id = 224\n  video: packet_length = 0\n  video: pts = 3591437680\n  \
         video: dts = 3591434080\n  video: payload_bytes = 1000\n"
    );
    let mut blank = PesPacket::new();
    assert_eq!(
        blank.dump(""),
        "stream_id = 0\npacket_length = 0\npts = none\ndts = none\npayload_bytes = 0\n"
    );
    blank.pts = Some(-10);
    blank.dts = Some(i64::MIN);
    blank.packet_length = 65535;
    assert_eq!(
        blank.dump("#"),
        "#stream_id = 0\n#packet_length = 65535\n#pts = -10\n#dts = -9223372036854775808\n#payload_bytes = 0\n"
    );
}

#[test]
fn a_copy_is_equal_and_apart() {
    let p = parse_pes(&unit(0xc1, 0, Some(77), None, 0, &[1, 2, 3])).unwrap();
    let mut q = p.copy();
    assert_eq!(format!("{:?}", p), format!("{:?}", q));
    q.payload.push(4);
    assert_eq!(p.payload, vec![1, 2, 3]);
}

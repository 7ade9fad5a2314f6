use ltntstools::crc::crc32;
use ltntstools::psi::{check_section, parse_descriptors, parse_pat, parse_pmt, PatEntry};

/// The checksum by the bit, written out here once more so that the
/// library's is held against something.
fn reference_crc(data: &[u8]) -> u32 {
    let mut crc: u32 = 0xffff_ffff;
    for byte in data {
        for bit in (0..8).rev() {
            let top = (crc >> 31) & 1;
            let input = ((byte >> bit) & 1) as u32;
            crc <<= 1;
            if top ^ input == 1 {
                crc ^= 0x04c1_1db7;
            }
        }
    }
    crc
}

/// A section: table id, the long-form header, the body, the checksum.
fn section(table_id: u8, extension: u16, version: u8, current: bool, body: &[u8]) -> Vec<u8> {
    let length = 5 + body.len() + 4;
    let mut s = vec![
        table_id,
        0xb0 | (length >> 8) as u8,
        length as u8,
        (extension >> 8) as u8,
        extension as u8,
        0xc0 | (version << 1) | current as u8,
        0,
        0,
    ];
    s.extend_from_slice(body);
    let crc = reference_crc(&s);
    s.extend_from_slice(&crc.to_be_bytes());
    s
}

fn pat_body(programs: &[(u16, u16)]) -> Vec<u8> {
    let mut body = Vec::new();
    for (number, pid) in programs {
        body.extend_from_slice(&number.to_be_bytes());
        body.push(0xe0 | (pid >> 8) as u8);
        body.push(*pid as u8);
    }
    body
}

fn pmt_body(pcr_pid: u16, program_info: &[u8], streams: &[(u8, u16, Vec<u8>)]) -> Vec<u8> {
    let mut body = vec![
        0xe0 | (pcr_pid >> 8) as u8,
        pcr_pid as u8,
        0xf0 | (program_info.len() >> 8) as u8,
        program_info.len() as u8,
    ];
    body.extend_from_slice(program_info);
    for (stream_type, pid, descriptors) in streams {
        body.push(*stream_type);
        body.push(0xe0 | (pid >> 8) as u8);
        body.push(*pid as u8);
        body.push(0xf0 | (descriptors.len() >> 8) as u8);
        body.push(descriptors.len() as u8);
        body.extend_from_slice(descriptors);
    }
    body
}

#[test]
fn the_checksum_of_the_check_string() {
    assert_eq!(crc32(b"123456789"), 0x0376_e6e7);
    assert_eq!(crc32(b""), 0xffff_ffff);
    assert_eq!(crc32(&[0]), 0x4e08_bfb4);
}

#[test]
fn the_checksum_agrees_with_the_reference() {
    let data: Vec<u8> = (0..1000u32).map(|i| (i * 31 + 7) as u8).collect();
    for len in [1usize, 2, 3, 4, 5, 8, 183, 184, 1000] {
        assert_eq!(crc32(&data[..len]), reference_crc(&data[..len]));
    }
}

#[test]
fn a_section_with_its_checksum_checks_out_to_zero() {
    let s = section(0, 1, 0, true, &pat_body(&[(1, 0x30)]));
    assert_eq!(crc32(&s), 0);
    assert!(check_section(&s));
}

#[test]
fn a_known_association_table() {
    /* transport stream 1, version 0, program 1 on PID 0x1000 */
    let s = [
        0x00, 0xb0, 0x0d, 0x00, 0x01, 0xc1, 0x00, 0x00, 0x00, 0x01, 0xf0, 0x00, 0x2a, 0xb1, 0x04,
        0xb2,
    ];
    let pat = parse_pat(&s).unwrap();
    assert_eq!(pat.transport_stream_id, 1);
    assert_eq!(pat.version, 0);
    assert_eq!(pat.entries, vec![PatEntry { program_number: 1, pmt_pid: 0x1000 }]);
}

#[test]
fn an_association_table_lists_its_programs_in_order() {
    let s = section(0, 0x1234, 17, true, &pat_body(&[(0, 0x10), (1, 0x30), (513, 0x1abc), (2, 0x31)]));
    let pat = parse_pat(&s).unwrap();
    assert_eq!(pat.transport_stream_id, 0x1234);
    assert_eq!(pat.version, 17);
    assert_eq!(
        pat.entries,
        vec![
            PatEntry { program_number: 1, pmt_pid: 0x30 },
            PatEntry { program_number: 513, pmt_pid: 0x1abc },
            PatEntry { program_number: 2, pmt_pid: 0x31 },
        ]
    );
    assert!(parse_pmt(&s).is_none());
}

#[test]
fn an_empty_association_table_is_valid() {
    let s = section(0, 9, 31, true, &[]);
    assert_eq!(s.len(), 12);
    let pat = parse_pat(&s).unwrap();
    assert_eq!(pat.version, 31);
    assert!(pat.entries.is_empty());
}

#[test]
fn a_map_table_lists_its_streams_in_order() {
    let streams = vec![
        (0x1b, 0x31, vec![]),
        (0x0f, 0x32, vec![0x0a, 0x04, b'e', b'n', b'g', 0x00]),
        (0x06, 0x1ffe, vec![0x6a, 0x01, 0x00]),
    ];
    let s = section(2, 7, 3, true, &pmt_body(0x31, &[0x05, 0x02, 0xaa, 0xbb], &streams));
    let pmt = parse_pmt(&s).unwrap();
    assert_eq!(pmt.program_number, 7);
    assert_eq!(pmt.version, 3);
    assert_eq!(pmt.pcr_pid, 0x31);
    assert_eq!(pmt.streams.len(), 3);
    assert_eq!((pmt.streams[0].stream_type, pmt.streams[0].pid), (0x1b, 0x31));
    assert!(pmt.streams[0].descriptors.is_empty());
    assert_eq!((pmt.streams[1].stream_type, pmt.streams[1].pid), (0x0f, 0x32));
    assert_eq!(pmt.streams[1].descriptors, vec![0x0a, 0x04, b'e', b'n', b'g', 0x00]);
    assert_eq!((pmt.streams[2].stream_type, pmt.streams[2].pid), (0x06, 0x1ffe));
    assert_eq!(pmt.streams[2].descriptors, vec![0x6a, 0x01, 0x00]);
    assert!(parse_pat(&s).is_none());
}

#[test]
fn a_map_table_without_streams_is_valid() {
    let s = section(2, 1, 0, true, &pmt_body(0x1fff, &[], &[]));
    assert_eq!(s.len(), 16);
    let pmt = parse_pmt(&s).unwrap();
    assert_eq!(pmt.pcr_pid, 0x1fff);
    assert!(pmt.streams.is_empty());
}

#[test]
fn a_stream_entry_that_does_not_fit_ends_the_list() {
    let mut body = pmt_body(0x31, &[], &[(0x1b, 0x31, vec![1, 2, 3])]);
    /* a second entry that announces more descriptor bytes than are left */
    body.extend_from_slice(&[0x0f, 0xe0, 0x32, 0xf0, 0x09, 0x01]);
    let s = section(2, 1, 0, true, &body);
    let pmt = parse_pmt(&s).unwrap();
    assert_eq!(pmt.streams.len(), 1);
    assert_eq!(pmt.streams[0].descriptors, vec![1, 2, 3]);
}

#[test]
fn program_descriptors_that_do_not_fit_spoil_the_table() {
    let mut body = pmt_body(0x31, &[], &[]);
    body[3] = 1;
    let s = section(2, 1, 0, true, &body);
    assert!(check_section(&s));
    assert!(parse_pmt(&s).is_none());
}

#[test]
fn a_wrong_checksum_spoils_the_section() {
    let good = section(0, 1, 0, true, &pat_body(&[(1, 0x30)]));
    for i in 0..good.len() {
        let mut bad = good.clone();
        bad[i] ^= 0x10;
        assert!(parse_pat(&bad).is_none(), "byte {} changed", i);
    }
    let good = section(2, 1, 0, true, &pmt_body(0x31, &[], &[(0x1b, 0x31, vec![])]));
    for i in 0..good.len() {
        let mut bad = good.clone();
        bad[i] ^= 0x01;
        assert!(parse_pmt(&bad).is_none(), "byte {} changed", i);
    }
}

#[test]
fn a_section_of_the_wrong_length_is_none() {
    let good = section(0, 1, 0, true, &pat_body(&[(1, 0x30)]));
    assert!(parse_pat(&good[..good.len() - 1]).is_none());
    let mut long = good.clone();
    long.push(0xff);
    assert!(parse_pat(&long).is_none());
    assert!(parse_pat(&[]).is_none());
    assert!(parse_pat(&good[..3]).is_none());
    assert!(!check_section(&good[..11]));
}

#[test]
fn a_table_that_is_not_in_force_yet_is_none() {
    let next = section(0, 1, 4, false, &pat_body(&[(1, 0x30)]));
    assert!(parse_pat(&next).is_none());
    let next = section(2, 1, 4, false, &pmt_body(0x31, &[], &[]));
    assert!(parse_pmt(&next).is_none());
}

#[test]
fn the_short_form_is_none() {
    let mut s = section(0, 1, 0, true, &pat_body(&[(1, 0x30)]));
    s[1] &= 0x7f;
    let end = s.len() - 4;
    let crc = reference_crc(&s[..end]);
    s[end..].copy_from_slice(&crc.to_be_bytes());
    assert!(parse_pat(&s).is_none());
}

#[test]
fn the_descriptors_of_a_stream_one_by_one() {
    let streams = vec![(0x0f, 0x32, vec![0x0a, 0x04, b'e', b'n', b'g', 0x00, 0x52, 0x01, 0x07, 0x7f, 0x00])];
    let s = section(2, 7, 3, true, &pmt_body(0x31, &[], &streams));
    let pmt = parse_pmt(&s).unwrap();
    let list = pmt.streams[0].descriptor_list();
    assert_eq!(list.len(), 3);
    assert_eq!((list[0].tag, &list[0].data[..]), (0x0a, &[b'e', b'n', b'g', 0x00][..]));
    assert_eq!((list[1].tag, &list[1].data[..]), (0x52, &[0x07][..]));
    assert_eq!((list[2].tag, list[2].data.len()), (0x7f, 0));
}

#[test]
fn a_descriptor_that_does_not_fit_ends_the_list() {
    assert!(parse_descriptors(&[]).is_empty());
    assert!(parse_descriptors(&[0x0a]).is_empty());
    assert!(parse_descriptors(&[0x0a, 0x01]).is_empty());
    let list = parse_descriptors(&[0x0a, 0x01, 0xee, 0x0b, 0x03, 0x01, 0x02]);
    assert_eq!(list.len(), 1);
    assert_eq!((list[0].tag, &list[0].data[..]), (0x0a, &[0xee][..]));
    let list = parse_descriptors(&[0x0a, 0x00, 0x0b, 0x00, 0x0c]);
    assert_eq!(list.len(), 2);
}

use ltntstools::sync::find_sync_position;

/// `count` packets that start with the sync byte and hold no other 0x47.
fn packets(count: usize) -> Vec<u8> {
    let mut out = Vec::new();
    for k in 0..count {
        let mut p = vec![0u8; 188];
        p[0] = 0x47;
        p[1] = 0x1f;
        p[2] = 0xff;
        p[3] = 0x10 | (k as u8 & 0x0f);
        for (i, b) in p.iter_mut().enumerate().skip(4) {
            *b = (i as u8).wrapping_mul(7) | 0x80;
        }
        out.extend_from_slice(&p);
    }
    out
}

fn garbage(n: usize) -> Vec<u8> {
    (0..n).map(|i| (i as u8) | 0x80).collect()
}

#[test]
fn test_find_sync_position() {
    let mut unaligned = garbage(155);
    unaligned.extend_from_slice(&packets(16));
    let position = find_sync_position(&unaligned);
    assert_eq!(position, Some(155));
}

#[test]
fn sync_at_the_start_of_an_aligned_buffer() {
    assert_eq!(find_sync_position(&packets(3)), Some(0));
}

#[test]
fn sync_behind_every_length_of_garbage() {
    for n in 0..188 {
        let mut buf = garbage(n);
        buf.extend_from_slice(&packets(3));
        assert_eq!(find_sync_position(&buf), Some(n), "garbage of {} bytes", n);
    }
}

#[test]
fn two_packets_do_not_confirm() {
    assert_eq!(find_sync_position(&packets(2)), None);
    assert_eq!(find_sync_position(&[]), None);
    assert_eq!(find_sync_position(&[0x47]), None);
}

#[test]
fn three_sync_bytes_are_the_least_that_confirms() {
    let mut buf = packets(3);
    buf.truncate(377);
    assert_eq!(find_sync_position(&buf), Some(0));
    buf.truncate(376);
    assert_eq!(find_sync_position(&buf), None);
}

#[test]
fn a_lone_sync_byte_in_the_garbage_is_passed_over() {
    let mut buf = garbage(100);
    buf[10] = 0x47;
    buf[40] = 0x47;
    buf.extend_from_slice(&packets(4));
    assert_eq!(find_sync_position(&buf), Some(100));
}

#[test]
fn a_buffer_without_the_pattern_has_no_position() {
    let mut buf = packets(5);
    for k in 0..5 {
        buf[k * 188] = 0x46;
    }
    assert_eq!(find_sync_position(&buf), None);
}

#[test]
fn the_pattern_in_the_garbage_wins() {
    let mut buf = garbage(600);
    buf[7] = 0x47;
    buf[7 + 188] = 0x47;
    buf[7 + 376] = 0x47;
    buf.extend_from_slice(&packets(3));
    assert_eq!(find_sync_position(&buf), Some(7));
}

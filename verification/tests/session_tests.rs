use majiang::session::{frame_for_user, read_user_id, user_id_bytes, ClientSession, FrameStep};

#[test]
fn user_ids_are_little_endian() {
    assert_eq!(user_id_bytes(258), vec![2, 1, 0, 0, 0, 0, 0, 0]);
    assert_eq!(user_id_bytes(-1), vec![255; 8]);
    assert_eq!(frame_for_user(&258, vec![9, 8]), vec![2, 1, 0, 0, 0, 0, 0, 0, 9, 8]);
}

#[test]
fn reading_a_tag_gives_back_the_user() {
    for id in [0i64, 1, 258, -1, i64::MIN, i64::MAX, 123456789] {
        let framed = frame_for_user(&id, vec![7]);
        assert_eq!(read_user_id(&framed), id);
    }
}

fn fill(s: &mut ClientSession, bytes: &[u8]) {
    let t = s.cur_tail;
    s.buf[t..t + bytes.len()].copy_from_slice(bytes);
    s.record_read(bytes.len());
}

#[test]
fn messages_are_cut_from_the_stream() {
    let mut s = ClientSession::new();
    assert!(s.pending_header().is_none());
    fill(&mut s, &[22, 7, 0, 0]);
    assert!(s.pending_header().is_none());
    fill(&mut s, &[0, 1, 2, 3]);
    assert_eq!(s.pending_header(), Some(vec![22, 7, 0, 0, 0]));
    assert!(matches!(s.take_message(9), FrameStep::Incomplete));
    match s.take_message(7) {
        FrameStep::Message(m) => assert_eq!(m, vec![22, 7, 0, 0, 0, 1, 2]),
        _ => panic!("a whole message was there"),
    }
    assert_eq!(s.cur_size, 1);
    assert_eq!(s.cur_head, 7);
    assert!(matches!(s.take_message(2000), FrameStep::TooLong));
}

#[test]
fn a_full_buffer_rolls_to_the_front() {
    let mut s = ClientSession::new();
    let data = vec![5u8; 4000];
    fill(&mut s, &data);
    match s.take_message(1000) {
        FrameStep::Message(m) => assert_eq!(m.len(), 1000),
        _ => panic!("a whole message was there"),
    }
    fill(&mut s, &[6u8; 96]);
    assert_eq!(s.cur_head, 0);
    assert_eq!(s.cur_tail, 3096);
    assert_eq!(s.cur_size, 3096);
    assert!(!s.reach_buf_end());
    assert_eq!(s.buf[3095], 6);
}

#[test]
fn rolling_moves_the_unread_bytes() {
    let mut s = ClientSession::new();
    s.buf[10] = 1;
    s.buf[11] = 2;
    s.cur_head = 10;
    s.cur_tail = 12;
    s.cur_size = 2;
    s.rollbuf();
    assert_eq!(s.cur_head, 0);
    assert_eq!(s.cur_tail, 2);
    assert_eq!(&s.buf[0..2], &[1, 2]);
}

use resurfacer::bridge::{frame, messages_in, reads_on, Delivery, Fed, FrameReader, Stop};

#[test]
fn a_frame_starts_with_the_length() {
    assert_eq!(frame(&vec![]), vec![0, 0, 0, 0]);
    assert_eq!(frame(&b"{}".to_vec()), vec![2, 0, 0, 0, b'{', b'}']);
    let long = frame(&vec![7; 0x1_02_03]);
    assert_eq!(long[..4], [0x03, 0x02, 0x01, 0x00]);
    assert_eq!(long.len(), 0x1_02_03 + 4);
}

#[test]
fn messages_come_back_from_their_frames() {
    let messages: Vec<Vec<u8>> = vec![b"{\"a\":1}".to_vec(), vec![], vec![1; 300]];
    let mut input: Vec<u8> = vec![];
    for m in &messages {
        input.extend(frame(m));
    }
    assert_eq!(messages_in(&input), messages);
    assert!(messages_in(&vec![]).is_empty());
}

#[test]
fn a_frame_that_is_cut_off_gives_nothing() {
    let mut input = frame(&b"one".to_vec());
    let second = frame(&b"two".to_vec());
    for n in 0..second.len() {
        let mut cut = input.clone();
        cut.extend(&second[..n]);
        assert_eq!(messages_in(&cut), vec![b"one".to_vec()]);
    }
    input.extend(&second);
    assert_eq!(messages_in(&input).len(), 2);
}

#[test]
fn a_reader_goes_from_header_to_payload() {
    let mut r = FrameReader::new();
    assert_eq!(r.wanted(), 4);
    assert!(matches!(r.feed(Some(vec![5, 1, 0, 0])), Fed::ReadOn));
    assert_eq!(r.wanted(), 261);
    assert!(matches!(r.feed(Some(vec![9; 261])), Fed::Message(m) if m == vec![9; 261]));
    assert_eq!(r.wanted(), 4);
    assert!(matches!(r.feed(Some(vec![0, 0, 0, 1])), Fed::ReadOn));
    assert_eq!(r.wanted(), 0x0100_0000);
}

#[test]
fn a_reader_stops_where_the_input_ends() {
    let mut r = FrameReader::new();
    assert!(matches!(r.feed(None), Fed::Stopped(Stop::Closed)));
    let mut r = FrameReader::new();
    r.feed(Some(vec![1, 0, 0, 0]));
    assert!(matches!(r.feed(None), Fed::Stopped(Stop::Truncated)));
}

#[test]
fn an_unrecognised_message_is_passed_over() {
    assert!(reads_on(Delivery::Sent));
    assert!(reads_on(Delivery::Unrecognised));
    assert!(!reads_on(Delivery::ReceiverGone));
}

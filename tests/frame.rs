use chat::frame::encode_frame;
use chat::frame::FrameBuffer;
use chat::frame::FrameError;
use chat::frame::CAP;

#[test]
fn encode_puts_big_endian_length_first() {
    assert_eq!(encode_frame(&vec![7, 8, 9]), Ok(vec![0, 0, 0, 3, 7, 8, 9]));
    assert_eq!(encode_frame(&vec![]), Ok(vec![0, 0, 0, 0]));
    let big = vec![1u8; 0x1234];
    let framed = encode_frame(&big).unwrap();
    assert_eq!(&framed[..4], &[0, 0, 0x12, 0x34]);
    assert_eq!(framed.len(), 4 + 0x1234);
}

#[test]
fn encode_refuses_payloads_over_cap() {
    assert!(encode_frame(&vec![0u8; CAP]).is_ok());
    assert_eq!(encode_frame(&vec![0u8; CAP + 1]), Err(FrameError::TooLarge));
}

#[test]
fn split_frame_comes_out_whole() {
    let mut buf = FrameBuffer::new();
    let framed = encode_frame(&b"hello".to_vec()).unwrap();
    buf.extend(&framed[..2]);
    assert_eq!(buf.next_frame(), Ok(None));
    buf.extend(&framed[2..6]);
    assert_eq!(buf.next_frame(), Ok(None));
    buf.extend(&framed[6..]);
    assert_eq!(buf.next_frame(), Ok(Some(b"hello".to_vec())));
    assert_eq!(buf.next_frame(), Ok(None));
}

#[test]
fn coalesced_frames_come_out_one_by_one() {
    let mut buf = FrameBuffer::new();
    let mut bytes = encode_frame(&b"ab".to_vec()).unwrap();
    bytes.extend(encode_frame(&b"".to_vec()).unwrap());
    bytes.extend(encode_frame(&b"xyz".to_vec()).unwrap());
    bytes.extend(&[0, 0]);
    buf.extend(&bytes);
    assert_eq!(buf.next_frame(), Ok(Some(b"ab".to_vec())));
    assert_eq!(buf.next_frame(), Ok(Some(vec![])));
    assert_eq!(buf.next_frame(), Ok(Some(b"xyz".to_vec())));
    assert_eq!(buf.next_frame(), Ok(None));
    buf.extend(&[0, 1, 42]);
    assert_eq!(buf.next_frame(), Ok(Some(vec![42])));
}

#[test]
fn oversized_header_is_an_error() {
    let mut buf = FrameBuffer::new();
    buf.extend(&[0, 0, 0x28, 0x01]);
    assert_eq!(buf.next_frame(), Err(FrameError::TooLarge));
    assert_eq!(buf.next_frame(), Err(FrameError::TooLarge));
    let mut ok = FrameBuffer::new();
    ok.extend(&[0, 0, 0x28, 0x00]);
    assert_eq!(ok.next_frame(), Ok(None));
}

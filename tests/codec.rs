use binance_ws::codec::{encode, encode_client_frame, CodecError, FrameDecoder, OP_BINARY, OP_TEXT};
use binance_ws::run_loop::ControlMessage;

const KEY: [u8; 4] = [0x37, 0xfa, 0x21, 0x3d];

#[test]
fn encodes_masked_hello_as_in_the_rfc() {
    let bytes = encode(&ControlMessage::SendText("Hello".to_string()), &KEY);
    assert_eq!(bytes, vec![0x81, 0x85, 0x37, 0xfa, 0x21, 0x3d, 0x7f, 0x9f, 0x4d, 0x51, 0x58]);
}

#[test]
fn encodes_close_and_ping() {
    assert_eq!(encode(&ControlMessage::Close, &KEY), vec![0x88, 0x80, 0x37, 0xfa, 0x21, 0x3d]);
    assert_eq!(encode(&ControlMessage::Ping(vec![0, 0]), &KEY), vec![0x89, 0x82, 0x37, 0xfa, 0x21, 0x3d, 0x37, 0xfa]);
}

#[test]
fn extended_lengths() {
    let p = vec![0u8; 300];
    let f = encode_client_frame(OP_BINARY, &[0, 0, 0, 0], &p);
    assert_eq!(&f[..4], &[0x82, 0xfe, 0x01, 0x2c]);
    assert_eq!(f.len(), 2 + 2 + 4 + 300);
    let p = vec![0u8; 70000];
    let f = encode_client_frame(OP_BINARY, &[0, 0, 0, 0], &p);
    assert_eq!(&f[..10], &[0x82, 0xff, 0, 0, 0, 0, 0, 0x01, 0x11, 0x70]);
}

#[test]
fn round_trip_text() {
    let m = ControlMessage::SendText("{\"method\":\"SUBSCRIBE\"}".to_string());
    let bytes = encode(&m, &KEY);
    let mut d = FrameDecoder::new(1 << 20);
    d.feed(&bytes);
    let f = d.next_frame().unwrap().unwrap();
    assert!(f.fin);
    assert_eq!(f.opcode, OP_TEXT);
    assert_eq!(f.payload, b"{\"method\":\"SUBSCRIBE\"}".to_vec());
    assert!(d.next_frame().unwrap().is_none());
}

#[test]
fn round_trip_large_binary() {
    let payload: Vec<u8> = (0..70000u32).map(|i| (i % 251) as u8).collect();
    let bytes = encode(&ControlMessage::SendBinary(payload.clone()), &KEY);
    let mut d = FrameDecoder::new(100000);
    d.feed(&bytes);
    let f = d.next_frame().unwrap().unwrap();
    assert_eq!(f.opcode, OP_BINARY);
    assert_eq!(f.payload, payload);
}

fn feed_in_chunks(n: usize) {
    let text = "abcdefghijklmnopqrstuvwxyz0123456789-stream-payload-of-some-length";
    let bytes = encode(&ControlMessage::SendText(text.to_string()), &KEY);
    let size = (bytes.len() + n - 1) / n;
    let mut d = FrameDecoder::new(1024);
    let mut frames = Vec::new();
    for chunk in bytes.chunks(size) {
        d.feed(chunk);
        while let Some(f) = d.next_frame().unwrap() {
            frames.push(f);
        }
    }
    assert_eq!(frames.len(), 1);
    assert_eq!(frames[0].payload, text.as_bytes().to_vec());
}

#[test]
fn reassembles_from_one_chunk() {
    feed_in_chunks(1);
}

#[test]
fn reassembles_from_two_chunks() {
    feed_in_chunks(2);
}

#[test]
fn reassembles_from_five_chunks() {
    feed_in_chunks(5);
}

#[test]
fn reassembles_from_fifty_chunks() {
    feed_in_chunks(50);
}

#[test]
fn unmasked_server_frame() {
    let mut d = FrameDecoder::new(16);
    d.feed(&[0x81, 0x02, b'h', b'i', 0x82]);
    let f = d.next_frame().unwrap().unwrap();
    assert_eq!(f.payload, b"hi".to_vec());
    assert!(d.next_frame().unwrap().is_none());
}

#[test]
fn oversized_header_is_refused_before_payload() {
    let mut d = FrameDecoder::new(100);
    d.feed(&[0x82, 0x7e, 0x01, 0x00]);
    assert_eq!(d.next_frame().err(), Some(CodecError::OversizedPayload));
}

#[test]
fn malformed_reserved_bits_and_opcode() {
    let mut d = FrameDecoder::new(100);
    d.feed(&[0xc1, 0x00]);
    assert_eq!(d.next_frame().err(), Some(CodecError::MalformedFrame));
    let mut d = FrameDecoder::new(100);
    d.feed(&[0x83, 0x00]);
    assert_eq!(d.next_frame().err(), Some(CodecError::MalformedFrame));
}

#[test]
fn short_input_is_incomplete() {
    let mut d = FrameDecoder::new(100);
    assert!(d.next_frame().unwrap().is_none());
    d.feed(&[0x81]);
    assert!(d.next_frame().unwrap().is_none());
}

#[test]
fn unmasked_frame_in_chunks_decodes_once() {
    let mut bytes = vec![0x81u8, 0x7e, 0x01, 0x00];
    bytes.extend((0..256u32).map(|i| b'a' + (i % 26) as u8));
    for n in [1usize, 2, 5, 50] {
        let size = (bytes.len() + n - 1) / n;
        let mut d = FrameDecoder::new(1024);
        let mut frames = Vec::new();
        for chunk in bytes.chunks(size) {
            d.feed(chunk);
            while let Some(f) = d.next_frame().unwrap() {
                frames.push(f);
            }
        }
        assert_eq!(frames.len(), 1);
        assert_eq!(frames[0].payload, bytes[4..].to_vec());
    }
}

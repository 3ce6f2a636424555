use binance_ws::assembler::MessageAssembler;
use binance_ws::codec::{CodecError, Frame, OP_BINARY, OP_CONTINUATION, OP_PING, OP_TEXT};

fn frame(fin: bool, opcode: u8, payload: &[u8]) -> Frame {
    Frame { fin, opcode, payload: payload.to_vec() }
}

#[test]
fn joins_fragments_with_a_ping_between() {
    let mut a = MessageAssembler::new(100);
    assert!(a.accept(frame(false, OP_TEXT, b"Hel")).unwrap().is_none());
    let ping = a.accept(frame(true, OP_PING, b"p")).unwrap().unwrap();
    assert_eq!(ping.opcode, OP_PING);
    assert_eq!(ping.payload, b"p".to_vec());
    assert!(a.accept(frame(false, OP_CONTINUATION, b"lo ")).unwrap().is_none());
    let m = a.accept(frame(true, OP_CONTINUATION, b"world")).unwrap().unwrap();
    assert_eq!(m.opcode, OP_TEXT);
    assert_eq!(m.payload, b"Hello world".to_vec());
}

#[test]
fn unfragmented_message_passes_through() {
    let mut a = MessageAssembler::new(10);
    let m = a.accept(frame(true, OP_BINARY, &[1, 2, 3])).unwrap().unwrap();
    assert_eq!(m.opcode, OP_BINARY);
    assert_eq!(m.payload, vec![1, 2, 3]);
}

#[test]
fn continuation_without_start_is_malformed() {
    let mut a = MessageAssembler::new(10);
    assert_eq!(a.accept(frame(true, OP_CONTINUATION, b"x")).err(), Some(CodecError::MalformedFrame));
}

#[test]
fn new_message_inside_fragments_is_malformed() {
    let mut a = MessageAssembler::new(10);
    a.accept(frame(false, OP_TEXT, b"a")).unwrap();
    assert_eq!(a.accept(frame(true, OP_TEXT, b"b")).err(), Some(CodecError::MalformedFrame));
}

#[test]
fn fragmented_control_frame_is_malformed() {
    let mut a = MessageAssembler::new(10);
    assert_eq!(a.accept(frame(false, OP_PING, b"")).err(), Some(CodecError::MalformedFrame));
}

#[test]
fn fragments_over_the_limit_are_oversized() {
    let mut a = MessageAssembler::new(4);
    a.accept(frame(false, OP_TEXT, b"abc")).unwrap();
    assert_eq!(a.accept(frame(true, OP_CONTINUATION, b"de")).err(), Some(CodecError::OversizedPayload));
    let m = a.accept(frame(true, OP_CONTINUATION, b"d")).unwrap().unwrap();
    assert_eq!(m.payload, b"abcd".to_vec());
}

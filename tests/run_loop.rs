use binance_ws::run_loop::{
    CloseKind, ControlMessage, FaultCause, LoopInput, LoopState, RunLoop, StepOutput, WebSocketEvent,
};

fn is_terminal(e: &Option<WebSocketEvent>) -> bool {
    matches!(e, Some(WebSocketEvent::Closed(_)) | Some(WebSocketEvent::Error(_)))
}

fn open_loop(timeout: u64) -> RunLoop {
    let mut l = RunLoop::new(timeout);
    let out = l.step(LoopInput::HandshakeDone);
    assert!(out.write.is_none() && out.emit.is_none());
    assert_eq!(l.state, LoopState::Open);
    l
}

#[test]
fn peer_close_goes_through_closing_to_closed_with_one_terminal_event() {
    let mut l = open_loop(5000);
    let out = l.step(LoopInput::PeerClose);
    assert_eq!(l.state, LoopState::Closing);
    assert!(matches!(out.write, Some(ControlMessage::Close)));
    assert!(out.emit.is_none());
    let out = l.step(LoopInput::CloseWritten);
    assert_eq!(l.state, LoopState::Closed);
    assert!(matches!(out.emit, Some(WebSocketEvent::Closed(CloseKind::Clean))));
    let later = [
        LoopInput::Message(vec![1]),
        LoopInput::PeerClose,
        LoopInput::Tick(100000),
        LoopInput::Fault(FaultCause::Io),
        LoopInput::Control(ControlMessage::SendText("x".to_string())),
    ];
    for i in later {
        let out: StepOutput = l.step(i);
        assert!(out.write.is_none() && out.emit.is_none());
        assert_eq!(l.state, LoopState::Closed);
    }
}

#[test]
fn control_closed_sends_close_then_times_out() {
    let mut l = open_loop(5000);
    l.step(LoopInput::Tick(1000));
    let out = l.step(LoopInput::ControlClosed);
    assert!(matches!(out.write, Some(ControlMessage::Close)));
    assert_eq!(l.state, LoopState::Closing);
    l.step(LoopInput::CloseWritten);
    let out = l.step(LoopInput::Tick(5999));
    assert!(out.emit.is_none());
    assert_eq!(l.state, LoopState::Closing);
    let out = l.step(LoopInput::Tick(6000));
    assert_eq!(l.state, LoopState::Closed);
    assert!(matches!(out.emit, Some(WebSocketEvent::Closed(CloseKind::TimedOut))));
}

#[test]
fn control_closed_then_peer_answers_in_time() {
    let mut l = open_loop(5000);
    l.step(LoopInput::ControlClosed);
    l.step(LoopInput::CloseWritten);
    let out = l.step(LoopInput::PeerClose);
    assert_eq!(l.state, LoopState::Closed);
    assert!(matches!(out.emit, Some(WebSocketEvent::Closed(CloseKind::Clean))));
}

#[test]
fn controls_are_written_in_order() {
    let mut l = open_loop(10);
    let mut written = Vec::new();
    let inputs = vec![
        ControlMessage::SendText("a".to_string()),
        ControlMessage::SendBinary(vec![1, 2]),
        ControlMessage::Ping(vec![]),
        ControlMessage::SendText("b".to_string()),
    ];
    for c in inputs {
        let out = l.step(LoopInput::Control(c));
        assert!(out.emit.is_none());
        written.push(out.write.unwrap());
    }
    assert!(matches!(&written[0], ControlMessage::SendText(t) if t == "a"));
    assert!(matches!(&written[1], ControlMessage::SendBinary(b) if *b == vec![1, 2]));
    assert!(matches!(&written[2], ControlMessage::Ping(b) if b.is_empty()));
    assert!(matches!(&written[3], ControlMessage::SendText(t) if t == "b"));
}

#[test]
fn messages_are_emitted_in_arrival_order() {
    let mut l = open_loop(10);
    let mut seen = Vec::new();
    for k in 0u8..5 {
        let out = l.step(LoopInput::Message(vec![k]));
        match out.emit {
            Some(WebSocketEvent::MessageReceived(p)) => seen.push(p[0]),
            _ => panic!("no message event"),
        }
    }
    assert_eq!(seen, vec![0, 1, 2, 3, 4]);
}

#[test]
fn handshake_failure_faults_with_one_error() {
    let mut l = RunLoop::new(10);
    let out = l.step(LoopInput::Fault(FaultCause::Handshake));
    assert_eq!(l.state, LoopState::Faulted);
    assert!(matches!(out.emit, Some(WebSocketEvent::Error(FaultCause::Handshake))));
    assert!(l.is_finished());
    let out = l.step(LoopInput::HandshakeDone);
    assert!(!is_terminal(&out.emit));
    assert_eq!(l.state, LoopState::Faulted);
}

#[test]
fn reader_gone_starts_closing() {
    let mut l = open_loop(10);
    let out = l.step(LoopInput::ReaderGone);
    assert!(matches!(out.write, Some(ControlMessage::Close)));
    assert_eq!(l.state, LoopState::Closing);
    let out = l.step(LoopInput::Control(ControlMessage::SendText("late".to_string())));
    assert!(out.write.is_none());
}

#[test]
fn decode_error_while_open_faults() {
    let mut l = open_loop(10);
    let out = l.step(LoopInput::Fault(FaultCause::Decode));
    assert!(matches!(out.emit, Some(WebSocketEvent::Error(FaultCause::Decode))));
    assert_eq!(l.state, LoopState::Faulted);
}

use binance_ws::channel::{Backpressure, BoundedChannel};
use binance_ws::driver::{next_control_input, Outbox};
use binance_ws::run_loop::{ControlMessage, FaultCause, LoopInput, LoopState, RunLoop, WebSocketEvent};

#[test]
fn blocking_outbox_holds_and_keeps_order() {
    let mut o = Outbox::new(2, Backpressure::Block);
    for k in 0u32..5 {
        o.deliver(k);
    }
    let mut seen = Vec::new();
    for _ in 0..10 {
        if let Some(k) = o.take() {
            seen.push(k);
        }
        o.retry();
    }
    assert_eq!(seen, vec![0, 1, 2, 3, 4]);
}

#[test]
fn dropping_outbox_drops_when_full() {
    let mut o = Outbox::new(1, Backpressure::DropAndSignal);
    o.deliver(1u32);
    o.deliver(2u32);
    o.deliver(3u32);
    assert_eq!(o.take(), Some(1));
    assert_eq!(o.take(), None);
}

#[test]
fn closed_reader_discards() {
    let mut o = Outbox::new(1, Backpressure::Block);
    o.deliver(1u32);
    o.deliver(2u32);
    o.close_reader();
    assert!(o.reader_closed());
    o.retry();
    assert_eq!(o.take(), Some(1));
    assert_eq!(o.take(), None);
}

#[test]
fn control_inputs_in_order_then_closed() {
    let mut c = BoundedChannel::new(4, Backpressure::Block);
    c.push(ControlMessage::Ping(vec![1])).unwrap();
    c.push(ControlMessage::Close).unwrap();
    assert!(matches!(next_control_input(&mut c), Some(LoopInput::Control(ControlMessage::Ping(_)))));
    assert!(next_control_input(&mut c).is_some());
    assert!(next_control_input(&mut c).is_none());
    c.close();
    assert!(matches!(next_control_input(&mut c), Some(LoopInput::ControlClosed)));
}

#[test]
fn after_write_reports_close_and_failures() {
    let mut l = RunLoop::new(10);
    l.step(LoopInput::HandshakeDone);
    l.step(LoopInput::PeerClose);
    let out = l.after_write(true, true);
    assert_eq!(l.state, LoopState::Closed);
    assert!(matches!(out.emit, Some(WebSocketEvent::Closed(_))));

    let mut l = RunLoop::new(10);
    l.step(LoopInput::HandshakeDone);
    let out = l.after_write(true, false);
    assert!(out.emit.is_none());
    assert_eq!(l.state, LoopState::Open);
    let out = l.after_write(false, false);
    assert!(matches!(out.emit, Some(WebSocketEvent::Error(FaultCause::Io))));
    assert_eq!(l.state, LoopState::Faulted);
}

#[test]
fn reader_gone_silences_messages_and_refusals() {
    let mut l = RunLoop::new(10);
    l.step(LoopInput::HandshakeDone);
    l.step(LoopInput::ReaderGone);
    assert!(l.step(LoopInput::Message(vec![1])).emit.is_none());
    assert!(l.step(LoopInput::Control(ControlMessage::SendText("x".to_string()))).emit.is_none());
}

#[test]
fn sends_after_close_are_refused_not_dropped() {
    let mut l = RunLoop::new(10);
    l.step(LoopInput::HandshakeDone);
    l.step(LoopInput::ControlClosed);
    let out = l.step(LoopInput::Control(ControlMessage::SendText("late".to_string())));
    assert!(out.write.is_none());
    assert!(matches!(out.emit, Some(WebSocketEvent::SendRefused)));
}

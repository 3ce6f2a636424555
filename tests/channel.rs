use binance_ws::channel::{Backpressure, BoundedChannel, ChannelError, Delivery};

#[test]
fn channel_is_fifo() {
    let mut q = BoundedChannel::new(3, Backpressure::Block);
    assert_eq!(q.push(1u32), Ok(Delivery::Queued));
    assert_eq!(q.push(2u32), Ok(Delivery::Queued));
    assert_eq!(q.pop(), Some(1));
    assert_eq!(q.push(3u32), Ok(Delivery::Queued));
    assert_eq!(q.pop(), Some(2));
    assert_eq!(q.pop(), Some(3));
    assert_eq!(q.pop(), None);
}

#[test]
fn full_blocking_channel_would_block_and_keeps_order() {
    let mut q = BoundedChannel::new(2, Backpressure::Block);
    q.push(10u32).unwrap();
    q.push(11u32).unwrap();
    assert_eq!(q.push(12u32), Err(ChannelError::WouldBlock));
    assert_eq!(q.len(), 2);
    assert_eq!(q.pop(), Some(10));
    assert_eq!(q.push(12u32), Ok(Delivery::Queued));
    assert_eq!(q.pop(), Some(11));
    assert_eq!(q.pop(), Some(12));
    assert_eq!(q.dropped_count(), 0);
}

#[test]
fn full_dropping_channel_drops_and_signals() {
    let mut q = BoundedChannel::new(2, Backpressure::DropAndSignal);
    q.push(1u32).unwrap();
    q.push(2u32).unwrap();
    assert_eq!(q.push(3u32), Ok(Delivery::Dropped));
    assert_eq!(q.push(4u32), Ok(Delivery::Dropped));
    assert_eq!(q.dropped_count(), 2);
    assert_eq!(q.pop(), Some(1));
    assert_eq!(q.push(5u32), Ok(Delivery::Queued));
    assert_eq!(q.pop(), Some(2));
    assert_eq!(q.pop(), Some(5));
    assert_eq!(q.pop(), None);
}

#[test]
fn closed_channel_refuses_but_drains() {
    let mut q = BoundedChannel::new(1, Backpressure::Block);
    q.push(7u32).unwrap();
    q.close();
    assert!(q.closed());
    assert_eq!(q.push(8u32), Err(ChannelError::Closed));
    assert_eq!(q.pop(), Some(7));
    assert_eq!(q.pop(), None);
}

use vstd::prelude::*;

verus! {

/// Where a connection's run loop stands.
#[derive(PartialEq, Eq, Structural, Clone, Copy, Debug)]
pub enum LoopState {
    Connecting,
    Open,
    Closing,
    Closed,
    Faulted,
}

/// What made a connection fail.
#[derive(PartialEq, Eq, Structural, Clone, Copy, Debug)]
pub enum FaultCause {
    Handshake,
    Io,
    Decode,
}

/// How a closed connection ended.
#[derive(PartialEq, Eq, Structural, Clone, Copy, Debug)]
pub enum CloseKind {
    /// Both sides sent a Close frame.
    Clean,
    /// The peer did not answer our Close frame in time; the socket was forced shut.
    TimedOut,
}

/// A caller's directive to the run loop.
pub enum ControlMessage {
    SendText(String),
    SendBinary(Vec<u8>),
    Close,
    Ping(Vec<u8>),
}

/// A notification from the run loop to the caller.
pub enum WebSocketEvent {
    MessageReceived(Vec<u8>),
    /// A send or ping directive arrived after the closing handshake began and
    /// was not written.
    SendRefused,
    Closed(CloseKind),
    Error(FaultCause),
}

/// What the run loop learns, one at a time.
pub enum LoopInput {
    /// The upgrade handshake succeeded.
    HandshakeDone,
    /// A socket, decode or handshake failure.
    Fault(FaultCause),
    /// A data frame's payload from the peer.
    Message(Vec<u8>),
    /// The peer's Close frame.
    PeerClose,
    /// A directive taken from the control channel.
    Control(ControlMessage),
    /// The caller closed the control channel.
    ControlClosed,
    /// The reader of the event channel went away.
    ReaderGone,
    /// Our Close frame was written to the socket.
    CloseWritten,
    /// The clock, in milliseconds.
    Tick(u64),
}

/// The run loop's decisions for one connection. It does no I/O itself: the
/// driver writes what `step` says to write and delivers what it says to emit.
#[derive(PartialEq, Eq, Structural, Clone, Copy, Debug)]
pub struct RunLoop {
    pub state: LoopState,
    /// Our Close frame has been written.
    pub close_sent: bool,
    /// The peer's Close frame has arrived.
    pub close_received: bool,
    /// The latest clock reading, in milliseconds.
    pub now: u64,
    /// When the closing handshake began.
    pub closing_since: u64,
    /// How long to wait for the peer's Close frame, in milliseconds.
    pub close_timeout: u64,
    /// The reader of the event channel went away: nothing but the terminal
    /// event is emitted any more.
    pub reader_gone: bool,
}

/// The outcome of one step: at most one frame to write and at most one event
/// to emit.
pub struct StepOutput {
    pub write: Option<ControlMessage>,
    pub emit: Option<WebSocketEvent>,
}

/// The loop after one input, and what it asks the driver to do.
pub struct Transition {
    pub after: RunLoop,
    pub out: StepOutput,
}

pub open spec fn is_terminal_state(s: LoopState) -> bool {
    s == LoopState::Closed || s == LoopState::Faulted
}

pub open spec fn is_terminal_event(e: WebSocketEvent) -> bool {
    e is Closed || e is Error
}

pub open spec fn quiet(after: RunLoop) -> Transition {
    Transition { after, out: StepOutput { write: None, emit: None } }
}

pub open spec fn emitting(after: RunLoop, e: WebSocketEvent) -> Transition {
    Transition { after, out: StepOutput { write: None, emit: Some(e) } }
}

pub open spec fn writing(after: RunLoop, m: ControlMessage) -> Transition {
    Transition { after, out: StepOutput { write: Some(m), emit: None } }
}

pub open spec fn with_state(l: RunLoop, s: LoopState) -> RunLoop {
    RunLoop { state: s, ..l }
}

/// Begins the closing handshake from our side: write a Close frame and start
/// the timeout at the latest clock reading.
pub open spec fn start_closing(l: RunLoop) -> Transition {
    writing(RunLoop { state: LoopState::Closing, closing_since: l.now, ..l }, ControlMessage::Close)
}

/// Whether the closing handshake has waited its full timeout at time `t`.
pub open spec fn close_timed_out(l: RunLoop, t: u64) -> bool {
    t >= l.closing_since && t - l.closing_since >= l.close_timeout
}

/// The run loop's transition on one input.
pub open spec fn transition(l: RunLoop, i: LoopInput) -> Transition {
    match l.state {
        LoopState::Closed | LoopState::Faulted => quiet(l),
        LoopState::Connecting => match i {
            LoopInput::HandshakeDone => quiet(with_state(l, LoopState::Open)),
            LoopInput::Fault(c) => emitting(with_state(l, LoopState::Faulted), WebSocketEvent::Error(c)),
            LoopInput::Tick(t) => quiet(RunLoop { now: t, ..l }),
            _ => quiet(l),
        },
        LoopState::Open => match i {
            LoopInput::Message(p) => emitting(l, WebSocketEvent::MessageReceived(p)),
            LoopInput::PeerClose => start_closing(RunLoop { close_received: true, ..l }),
            LoopInput::Control(ControlMessage::Close) => start_closing(l),
            LoopInput::Control(m) => writing(l, m),
            LoopInput::ControlClosed => start_closing(l),
            LoopInput::ReaderGone => start_closing(RunLoop { reader_gone: true, ..l }),
            LoopInput::Fault(c) => emitting(with_state(l, LoopState::Faulted), WebSocketEvent::Error(c)),
            LoopInput::Tick(t) => quiet(RunLoop { now: t, ..l }),
            _ => quiet(l),
        },
        LoopState::Closing => match i {
            LoopInput::Message(p) => if l.reader_gone {
                quiet(l)
            } else {
                emitting(l, WebSocketEvent::MessageReceived(p))
            },
            LoopInput::ReaderGone => quiet(RunLoop { reader_gone: true, ..l }),
            LoopInput::Control(ControlMessage::Close) => quiet(l),
            LoopInput::Control(_) => if l.reader_gone {
                quiet(l)
            } else {
                emitting(l, WebSocketEvent::SendRefused)
            },
            LoopInput::CloseWritten => if l.close_received {
                emitting(RunLoop { state: LoopState::Closed, close_sent: true, ..l }, WebSocketEvent::Closed(CloseKind::Clean))
            } else {
                quiet(RunLoop { close_sent: true, ..l })
            },
            LoopInput::PeerClose => if l.close_sent {
                emitting(RunLoop { state: LoopState::Closed, close_received: true, ..l }, WebSocketEvent::Closed(CloseKind::Clean))
            } else {
                quiet(RunLoop { close_received: true, ..l })
            },
            LoopInput::Tick(t) => if close_timed_out(l, t) {
                emitting(RunLoop { state: LoopState::Closed, now: t, ..l }, WebSocketEvent::Closed(CloseKind::TimedOut))
            } else {
                quiet(RunLoop { now: t, ..l })
            },
            LoopInput::Fault(c) => emitting(with_state(l, LoopState::Faulted), WebSocketEvent::Error(c)),
            _ => quiet(l),
        },
    }
}

impl RunLoop {
    /// A loop waiting for its handshake, that will wait `close_timeout`
    /// milliseconds for the peer's Close frame.
    pub fn new(close_timeout: u64) -> (r: RunLoop)
        ensures
            r == (RunLoop {
                state: LoopState::Connecting,
                close_sent: false,
                close_received: false,
                now: 0,
                closing_since: 0,
                close_timeout,
                reader_gone: false,
            }),
    {
        RunLoop {
            state: LoopState::Connecting,
            close_sent: false,
            close_received: false,
            now: 0,
            closing_since: 0,
            close_timeout,
            reader_gone: false,
        }
    }

    fn begin_closing(&mut self) -> (r: StepOutput)
        ensures
            *final(self) == start_closing(*old(self)).after,
            r == start_closing(*old(self)).out,
    {
        self.state = LoopState::Closing;
        self.closing_since = self.now;
        StepOutput { write: Some(ControlMessage::Close), emit: None }
    }

    fn fault(&mut self, c: FaultCause) -> (r: StepOutput)
        ensures
            *final(self) == with_state(*old(self), LoopState::Faulted),
            r == (StepOutput { write: None, emit: Some(WebSocketEvent::Error(c)) }),
    {
        self.state = LoopState::Faulted;
        StepOutput { write: None, emit: Some(WebSocketEvent::Error(c)) }
    }

    /// Takes one input: moves to the next state and says what to write and
    /// what to emit.
    pub fn step(&mut self, i: LoopInput) -> (r: StepOutput)
        ensures
            *final(self) == transition(*old(self), i).after,
            r == transition(*old(self), i).out,
    {
        let none = StepOutput { write: None, emit: None };
        match self.state {
            LoopState::Closed | LoopState::Faulted => none,
            LoopState::Connecting => match i {
                LoopInput::HandshakeDone => {
                    self.state = LoopState::Open;
                    none
                },
                LoopInput::Fault(c) => self.fault(c),
                LoopInput::Tick(t) => {
                    self.now = t;
                    none
                },
                _ => none,
            },
            LoopState::Open => match i {
                LoopInput::Message(p) => StepOutput { write: None, emit: Some(WebSocketEvent::MessageReceived(p)) },
                LoopInput::PeerClose => {
                    self.close_received = true;
                    self.begin_closing()
                },
                LoopInput::Control(ControlMessage::Close) => self.begin_closing(),
                LoopInput::Control(m) => StepOutput { write: Some(m), emit: None },
                LoopInput::ControlClosed => self.begin_closing(),
                LoopInput::ReaderGone => {
                    self.reader_gone = true;
                    self.begin_closing()
                },
                LoopInput::Fault(c) => self.fault(c),
                LoopInput::Tick(t) => {
                    self.now = t;
                    none
                },
                _ => none,
            },
            LoopState::Closing => match i {
                LoopInput::Message(p) => if self.reader_gone {
                    none
                } else {
                    StepOutput { write: None, emit: Some(WebSocketEvent::MessageReceived(p)) }
                },
                LoopInput::ReaderGone => {
                    self.reader_gone = true;
                    none
                },
                LoopInput::Control(ControlMessage::Close) => none,
                LoopInput::Control(_) => if self.reader_gone {
                    none
                } else {
                    StepOutput { write: None, emit: Some(WebSocketEvent::SendRefused) }
                },
                LoopInput::CloseWritten => {
                    self.close_sent = true;
                    if self.close_received {
                        self.state = LoopState::Closed;
                        StepOutput { write: None, emit: Some(WebSocketEvent::Closed(CloseKind::Clean)) }
                    } else {
                        none
                    }
                },
                LoopInput::PeerClose => {
                    self.close_received = true;
                    if self.close_sent {
                        self.state = LoopState::Closed;
                        StepOutput { write: None, emit: Some(WebSocketEvent::Closed(CloseKind::Clean)) }
                    } else {
                        none
                    }
                },
                LoopInput::Tick(t) => {
                    let timed_out = t >= self.closing_since && t - self.closing_since >= self.close_timeout;
                    self.now = t;
                    if timed_out {
                        self.state = LoopState::Closed;
                        StepOutput { write: None, emit: Some(WebSocketEvent::Closed(CloseKind::TimedOut)) }
                    } else {
                        none
                    }
                },
                LoopInput::Fault(c) => self.fault(c),
                _ => none,
            },
        }
    }

    /// Takes the outcome of carrying out a write that `step` asked for: a
    /// failed write is an I/O fault, a written Close frame is `CloseWritten`,
    /// any other written frame changes nothing.
    pub fn after_write(&mut self, ok: bool, was_close: bool) -> (r: StepOutput)
        ensures
            !ok ==> *final(self) == transition(*old(self), LoopInput::Fault(FaultCause::Io)).after
                && r == transition(*old(self), LoopInput::Fault(FaultCause::Io)).out,
            ok && was_close ==> *final(self) == transition(*old(self), LoopInput::CloseWritten).after
                && r == transition(*old(self), LoopInput::CloseWritten).out,
            ok && !was_close ==> *final(self) == *old(self) && r == (StepOutput { write: None, emit: None }),
    {
        if !ok {
            self.step(LoopInput::Fault(FaultCause::Io))
        } else if was_close {
            self.step(LoopInput::CloseWritten)
        } else {
            StepOutput { write: None, emit: None }
        }
    }

    /// Whether the loop has ended and released its connection.
    pub fn is_finished(&self) -> (r: bool)
        ensures
            r == is_terminal_state(self.state),
    {
        match self.state {
            LoopState::Closed | LoopState::Faulted => true,
            _ => false,
        }
    }
}

} // verus!

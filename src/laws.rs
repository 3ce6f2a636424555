use vstd::prelude::*;
use crate::run_loop::{
    close_timed_out, is_terminal_event, is_terminal_state, transition, CloseKind, ControlMessage,
    LoopInput, LoopState, RunLoop, WebSocketEvent,
};

verus! {

/// The items of an option, as a sequence of length zero or one.
pub open spec fn opt_seq<T>(o: Option<T>) -> Seq<T> {
    match o {
        Some(x) => seq![x],
        None => Seq::empty(),
    }
}

/// Feeding `ins` to the loop one by one: the loop at the end, every event
/// emitted and every frame written, each in order.
pub open spec fn run(l: RunLoop, ins: Seq<LoopInput>) -> (RunLoop, Seq<WebSocketEvent>, Seq<ControlMessage>)
    decreases ins.len(),
{
    if ins.len() == 0 {
        (l, Seq::empty(), Seq::empty())
    } else {
        let t = transition(l, ins[0]);
        let rest = run(t.after, ins.drop_first());
        (rest.0, opt_seq(t.out.emit) + rest.1, opt_seq(t.out.write) + rest.2)
    }
}

/// How many of `evs` end a connection.
pub open spec fn terminal_count(evs: Seq<WebSocketEvent>) -> nat
    decreases evs.len(),
{
    if evs.len() == 0 {
        0
    } else {
        (if is_terminal_event(evs[0]) { 1nat } else { 0nat }) + terminal_count(evs.drop_first())
    }
}

proof fn lemma_terminal_count_cons(o: Option<WebSocketEvent>, rest: Seq<WebSocketEvent>)
    ensures
        terminal_count(opt_seq(o) + rest) == (if o matches Some(e) && is_terminal_event(e) { 1nat } else { 0nat })
            + terminal_count(rest),
{
    if let Some(e) = o {
        assert((opt_seq(o) + rest).drop_first() =~= rest);
    } else {
        assert(opt_seq(o) + rest =~= rest);
    }
}

/// A loop that has closed or faulted ignores every later input: it stays as
/// it is, writes nothing and emits nothing.
pub proof fn lemma_finished_loop_is_silent(l: RunLoop, ins: Seq<LoopInput>)
    requires
        is_terminal_state(l.state),
    ensures
        run(l, ins) == (l, Seq::<WebSocketEvent>::empty(), Seq::<ControlMessage>::empty()),
    decreases ins.len(),
{
    if ins.len() > 0 {
        lemma_finished_loop_is_silent(l, ins.drop_first());
    }
}

/// Whatever a running loop is fed, it emits exactly one terminal event if it
/// ends up closed or faulted, as its last event, and none otherwise.
pub proof fn lemma_exactly_one_terminal_event(l: RunLoop, ins: Seq<LoopInput>)
    requires
        !is_terminal_state(l.state),
    ensures
        is_terminal_state(run(l, ins).0.state) ==> terminal_count(run(l, ins).1) == 1
            && is_terminal_event(run(l, ins).1.last()),
        !is_terminal_state(run(l, ins).0.state) ==> terminal_count(run(l, ins).1) == 0,
    decreases ins.len(),
{
    if ins.len() > 0 {
        let t = transition(l, ins[0]);
        let rest = run(t.after, ins.drop_first());
        lemma_terminal_count_cons(t.out.emit, rest.1);
        if is_terminal_state(t.after.state) {
            lemma_finished_loop_is_silent(t.after, ins.drop_first());
            assert(rest.1 =~= Seq::<WebSocketEvent>::empty());
            assert(opt_seq(t.out.emit) + rest.1 =~= opt_seq(t.out.emit));
        } else {
            lemma_exactly_one_terminal_event(t.after, ins.drop_first());
            if is_terminal_state(rest.0.state) {
                assert((opt_seq(t.out.emit) + rest.1).last() == rest.1.last());
            }
        }
    }
}

/// The inputs that hand the directives `cs` to the loop, in order.
pub open spec fn control_inputs(cs: Seq<ControlMessage>) -> Seq<LoopInput> {
    cs.map_values(|c: ControlMessage| LoopInput::Control(c))
}

/// The inputs that hand the payloads `ps` to the loop, in order.
pub open spec fn message_inputs(ps: Seq<Vec<u8>>) -> Seq<LoopInput> {
    ps.map_values(|p: Vec<u8>| LoopInput::Message(p))
}

/// The events that report the payloads `ps`, in order.
pub open spec fn message_events(ps: Seq<Vec<u8>>) -> Seq<WebSocketEvent> {
    ps.map_values(|p: Vec<u8>| WebSocketEvent::MessageReceived(p))
}

/// An open loop writes the send and ping directives it is handed to the wire
/// exactly in the order they were submitted, and stays open.
pub proof fn lemma_controls_written_in_order(l: RunLoop, cs: Seq<ControlMessage>)
    requires
        l.state == LoopState::Open,
        forall|k: int| 0 <= k < cs.len() ==> !(#[trigger] cs[k] is Close),
    ensures
        run(l, control_inputs(cs)) == (l, Seq::<WebSocketEvent>::empty(), cs),
    decreases cs.len(),
{
    if cs.len() > 0 {
        let ins = control_inputs(cs);
        assert(ins.drop_first() =~= control_inputs(cs.drop_first()));
        assert(ins[0] == LoopInput::Control(cs[0]));
        assert(!(cs[0] is Close));
        lemma_controls_written_in_order(l, cs.drop_first());
        assert(seq![cs[0]] + cs.drop_first() =~= cs);
    } else {
        assert(control_inputs(cs) =~= Seq::<LoopInput>::empty());
        assert(cs =~= Seq::<ControlMessage>::empty());
    }
}

/// A loop that is open, or closing with its reader still there, reports the
/// data frames it receives as events exactly in the order they arrived,
/// writing nothing.
pub proof fn lemma_messages_delivered_in_order(l: RunLoop, ps: Seq<Vec<u8>>)
    requires
        l.state == LoopState::Open || (l.state == LoopState::Closing && !l.reader_gone),
    ensures
        run(l, message_inputs(ps)) == (l, message_events(ps), Seq::<ControlMessage>::empty()),
    decreases ps.len(),
{
    if ps.len() > 0 {
        let ins = message_inputs(ps);
        assert(ins.drop_first() =~= message_inputs(ps.drop_first()));
        assert(ins[0] == LoopInput::Message(ps[0]));
        lemma_messages_delivered_in_order(l, ps.drop_first());
        assert(seq![WebSocketEvent::MessageReceived(ps[0])] + message_events(ps.drop_first()) =~= message_events(ps));
    } else {
        assert(message_inputs(ps) =~= Seq::<LoopInput>::empty());
        assert(message_events(ps) =~= Seq::<WebSocketEvent>::empty());
    }
}

/// A peer that closes an open connection gets our Close frame in reply; once
/// that is written the loop is closed, with one clean Closed event.
pub proof fn lemma_peer_close_completes(l: RunLoop)
    requires
        l.state == LoopState::Open,
    ensures
        transition(l, LoopInput::PeerClose).after.state == LoopState::Closing,
        transition(l, LoopInput::PeerClose).out.write == Some(ControlMessage::Close),
        transition(l, LoopInput::PeerClose).out.emit is None,
        transition(transition(l, LoopInput::PeerClose).after, LoopInput::CloseWritten).after.state
            == LoopState::Closed,
        transition(transition(l, LoopInput::PeerClose).after, LoopInput::CloseWritten).out.emit
            == Some(WebSocketEvent::Closed(CloseKind::Clean)),
{
}

/// When the caller closes the control channel of an open connection, the loop
/// writes a Close frame and starts closing; from then on, a clock reading at
/// least the close timeout later closes it, whether or not the peer answered.
pub proof fn lemma_control_closed_shuts_down(l: RunLoop, t: u64)
    requires
        l.state == LoopState::Open,
        t >= l.now + l.close_timeout,
    ensures
        transition(l, LoopInput::ControlClosed).after.state == LoopState::Closing,
        transition(l, LoopInput::ControlClosed).out.write == Some(ControlMessage::Close),
        close_timed_out(transition(l, LoopInput::ControlClosed).after, t),
        transition(transition(l, LoopInput::ControlClosed).after, LoopInput::Tick(t)).after.state
            == LoopState::Closed,
        transition(transition(l, LoopInput::ControlClosed).after, LoopInput::Tick(t)).out.emit
            == Some(WebSocketEvent::Closed(CloseKind::TimedOut)),
{
}

/// Once the closing handshake has begun, the loop writes no frame whatever it
/// is fed, so its Close frame is the last one written; and once the reader of
/// the event channel is gone, every event it still emits is terminal.
pub proof fn lemma_closing_loop_is_quiet(l: RunLoop, ins: Seq<LoopInput>)
    requires
        l.state == LoopState::Closing || is_terminal_state(l.state),
    ensures
        run(l, ins).2 == Seq::<ControlMessage>::empty(),
        l.reader_gone ==> forall|k: int| 0 <= k < run(l, ins).1.len() ==> is_terminal_event(#[trigger] run(l, ins).1[k]),
    decreases ins.len(),
{
    if is_terminal_state(l.state) {
        lemma_finished_loop_is_silent(l, ins);
    } else if ins.len() > 0 {
        let t = transition(l, ins[0]);
        let rest = run(t.after, ins.drop_first());
        lemma_closing_loop_is_quiet(t.after, ins.drop_first());
        assert(t.out.write is None);
        assert(opt_seq(t.out.write) + rest.2 =~= rest.2);
        if l.reader_gone {
            assert(t.after.reader_gone);
            let evs = opt_seq(t.out.emit) + rest.1;
            assert forall|k: int| 0 <= k < evs.len() implies is_terminal_event(#[trigger] evs[k]) by {
                if t.out.emit is Some && k == 0 {
                } else if t.out.emit is Some {
                    assert(evs[k] == rest.1[k - 1]);
                } else {
                    assert(evs[k] == rest.1[k]);
                }
            }
        }
    }
}

/// A closing loop never waits longer than its timeout: any clock reading that
/// far past the start of the closing handshake closes it.
pub proof fn lemma_closing_is_bounded(l: RunLoop, t: u64)
    requires
        l.state == LoopState::Closing,
        t >= l.closing_since + l.close_timeout,
    ensures
        transition(l, LoopInput::Tick(t)).after.state == LoopState::Closed,
        is_terminal_event(transition(l, LoopInput::Tick(t)).out.emit.unwrap()),
{
}

} // verus!

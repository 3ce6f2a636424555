use vstd::prelude::*;
use crate::codec::{concat_chunks, lemma_concat_prefix, CodecError, Frame, OP_BINARY, OP_CONTINUATION, OP_TEXT};

verus! {

/// What the assembler holds between frames: whether a fragmented message is
/// under way, its opcode, and its payload so far.
pub struct Partial {
    pub in_progress: bool,
    pub opcode: u8,
    pub data: Seq<u8>,
}

/// What one frame completes.
pub enum Assembled {
    /// A fragment was taken in; the message is not whole yet.
    Pending,
    /// A whole message or a control frame.
    Done { opcode: u8, payload: Seq<u8> },
    Failed(CodecError),
}

pub open spec fn idle() -> Partial {
    Partial { in_progress: false, opcode: 0, data: Seq::empty() }
}

/// The assembler's step on a frame with final bit `fin`, opcode `op` and
/// payload `p`, where messages may be at most `max` bytes long. Control frames
/// pass through between the fragments of a message; a failed step leaves the
/// state as it was.
pub open spec fn assemble(s: Partial, max: u64, fin: bool, op: u8, p: Seq<u8>) -> (Partial, Assembled) {
    if op >= 8 && op <= 10 {
        if !fin || p.len() > 125 {
            (s, Assembled::Failed(CodecError::MalformedFrame))
        } else {
            (s, Assembled::Done { opcode: op, payload: p })
        }
    } else if op == OP_TEXT || op == OP_BINARY {
        if s.in_progress {
            (s, Assembled::Failed(CodecError::MalformedFrame))
        } else if p.len() > max {
            (s, Assembled::Failed(CodecError::OversizedPayload))
        } else if fin {
            (s, Assembled::Done { opcode: op, payload: p })
        } else {
            (Partial { in_progress: true, opcode: op, data: p }, Assembled::Pending)
        }
    } else if op == OP_CONTINUATION {
        if !s.in_progress {
            (s, Assembled::Failed(CodecError::MalformedFrame))
        } else if s.data.len() + p.len() > max {
            (s, Assembled::Failed(CodecError::OversizedPayload))
        } else if fin {
            (idle(), Assembled::Done { opcode: s.opcode, payload: s.data + p })
        } else {
            (Partial { in_progress: true, opcode: s.opcode, data: s.data + p }, Assembled::Pending)
        }
    } else {
        (s, Assembled::Failed(CodecError::MalformedFrame))
    }
}

/// A whole message, or a control frame, from the peer.
pub struct Message {
    pub opcode: u8,
    pub payload: Vec<u8>,
}

/// Joins the fragments of a message into one.
pub struct MessageAssembler {
    in_progress: bool,
    opcode: u8,
    data: Vec<u8>,
    max_message: u64,
}

impl MessageAssembler {
    pub closed spec fn state(&self) -> Partial {
        Partial { in_progress: self.in_progress, opcode: self.opcode, data: self.data@ }
    }

    pub closed spec fn max_message(&self) -> u64 {
        self.max_message
    }

    pub fn new(max_message: u64) -> (r: MessageAssembler)
        ensures
            r.state() == idle(),
            r.max_message() == max_message,
    {
        MessageAssembler { in_progress: false, opcode: 0, data: Vec::new(), max_message }
    }

    /// Takes in the next frame: a whole message or control frame when one is
    /// complete, none while fragments are still coming.
    pub fn accept(&mut self, f: Frame) -> (r: Result<Option<Message>, CodecError>)
        ensures
            final(self).max_message() == old(self).max_message(),
            final(self).state() == assemble(old(self).state(), old(self).max_message(), f.fin, f.opcode, f.payload@).0,
            match assemble(old(self).state(), old(self).max_message(), f.fin, f.opcode, f.payload@).1 {
                Assembled::Pending => r matches Ok(None),
                Assembled::Done { opcode, payload } => r matches Ok(Some(m)) && m.opcode == opcode
                    && m.payload@ == payload,
                Assembled::Failed(e) => r == Err::<Option<Message>, CodecError>(e),
            },
    {
        let op = f.opcode;
        if op >= 8 && op <= 10 {
            if !f.fin || f.payload.len() > 125 {
                return Err(CodecError::MalformedFrame);
            }
            return Ok(Some(Message { opcode: op, payload: f.payload }));
        }
        if op == OP_TEXT || op == OP_BINARY {
            if self.in_progress {
                return Err(CodecError::MalformedFrame);
            }
            if f.payload.len() as u64 > self.max_message {
                return Err(CodecError::OversizedPayload);
            }
            if f.fin {
                return Ok(Some(Message { opcode: op, payload: f.payload }));
            }
            self.in_progress = true;
            self.opcode = op;
            self.data = f.payload;
            return Ok(None);
        }
        if op == OP_CONTINUATION {
            if !self.in_progress {
                return Err(CodecError::MalformedFrame);
            }
            let have = self.data.len() as u64;
            if have > self.max_message || f.payload.len() as u64 > self.max_message - have {
                return Err(CodecError::OversizedPayload);
            }
            let ghost before = self.data@;
            let mut i: usize = 0;
            while i < f.payload.len()
                invariant
                    i <= f.payload@.len(),
                    self.data@ == before + f.payload@.take(i as int),
                    self.max_message == old(self).max_message,
                    self.opcode == old(self).opcode,
                    self.in_progress == old(self).in_progress,
                decreases f.payload@.len() - i,
            {
                self.data.push(f.payload[i]);
                assert(self.data@ =~= before + f.payload@.take(i + 1));
                i = i + 1;
            }
            assert(f.payload@.take(i as int) =~= f.payload@);
            if f.fin {
                let mut whole: Vec<u8> = Vec::new();
                core::mem::swap(&mut whole, &mut self.data);
                self.in_progress = false;
                let opcode = self.opcode;
                self.opcode = 0;
                assert(self.data@ =~= Seq::<u8>::empty());
                return Ok(Some(Message { opcode, payload: whole }));
            }
            return Ok(None);
        }
        Err(CodecError::MalformedFrame)
    }
}

/// Feeding frames (final bit, opcode, payload) to the assembler one by one:
/// the state at the end and what each frame completed, in order.
pub open spec fn run_frames(s: Partial, max: u64, frames: Seq<(bool, u8, Seq<u8>)>) -> (Partial, Seq<Assembled>)
    decreases frames.len(),
{
    if frames.len() == 0 {
        (s, Seq::empty())
    } else {
        let prev = run_frames(s, max, frames.drop_last());
        let f = frames.last();
        let st = assemble(prev.0, max, f.0, f.1, f.2);
        (st.0, prev.1.push(st.1))
    }
}

/// A message with opcode `op` sent as one frame per part: the first carries
/// the opcode, the others are continuations, the last is final.
pub open spec fn fragments(op: u8, parts: Seq<Seq<u8>>) -> Seq<(bool, u8, Seq<u8>)> {
    Seq::new(parts.len(), |k: int| (k == parts.len() - 1, if k == 0 { op } else { OP_CONTINUATION }, parts[k]))
}

pub open spec fn pendings(m: nat) -> Seq<Assembled> {
    Seq::new(m, |k: int| Assembled::Pending)
}

proof fn lemma_fragment_prefix(op: u8, parts: Seq<Seq<u8>>, max: u64, m: nat)
    requires
        op == OP_TEXT || op == OP_BINARY,
        concat_chunks(parts).len() <= max,
        1 <= m < parts.len(),
    ensures
        run_frames(idle(), max, fragments(op, parts).take(m as int)) == (Partial {
            in_progress: true,
            opcode: op,
            data: concat_chunks(parts.take(m as int)),
        }, pendings(m)),
    decreases m,
{
    let fr = fragments(op, parts).take(m as int);
    lemma_concat_prefix(parts, m as int);
    let pm = parts.take(m as int);
    assert(pm.drop_last() =~= parts.take(m - 1));
    assert(fr.last() == (false, if m == 1 { op } else { OP_CONTINUATION }, parts[m - 1]));
    assert(concat_chunks(pm) == concat_chunks(pm.drop_last()) + pm.last());
    assert(pm.last() == parts[m - 1]);
    let prev = run_frames(idle(), max, fr.drop_last());
    assert(run_frames(idle(), max, fr) == (assemble(prev.0, max, false, fr.last().1, parts[m - 1]).0,
        prev.1.push(assemble(prev.0, max, false, fr.last().1, parts[m - 1]).1)));
    if m == 1 {
        assert(fr.drop_last() =~= Seq::<(bool, u8, Seq<u8>)>::empty());
        assert(parts.take(0) =~= Seq::<Seq<u8>>::empty());
        assert(prev == (idle(), Seq::<Assembled>::empty()));
        assert(concat_chunks(pm) =~= parts[0]);
        assert(Seq::<Assembled>::empty().push(Assembled::Pending) =~= pendings(1));
    } else {
        lemma_fragment_prefix(op, parts, max, (m - 1) as nat);
        assert(fr.drop_last() =~= fragments(op, parts).take(m - 1));
        assert(pendings((m - 1) as nat).push(Assembled::Pending) =~= pendings(m));
    }
}

/// A message of `op` cut into any number of non-final fragments and a final
/// one is reassembled into exactly one message with the parts' bytes in
/// order; each earlier fragment completes nothing, and the assembler is idle again.
pub proof fn lemma_fragments_reassemble(op: u8, parts: Seq<Seq<u8>>, max: u64)
    requires
        op == OP_TEXT || op == OP_BINARY,
        parts.len() >= 1,
        concat_chunks(parts).len() <= max,
    ensures
        run_frames(idle(), max, fragments(op, parts)) == (idle(), pendings((parts.len() - 1) as nat).push(
            Assembled::Done { opcode: op, payload: concat_chunks(parts) },
        )),
{
    let n = parts.len();
    let fr = fragments(op, parts);
    assert(parts.take(n as int) =~= parts);
    assert(concat_chunks(parts) == concat_chunks(parts.drop_last()) + parts.last());
    assert(fr.last() == (true, if n == 1 { op } else { OP_CONTINUATION }, parts[n - 1]));
    assert(parts.last() == parts[n - 1]);
    let prev = run_frames(idle(), max, fr.drop_last());
    assert(run_frames(idle(), max, fr) == (assemble(prev.0, max, true, fr.last().1, parts[n - 1]).0,
        prev.1.push(assemble(prev.0, max, true, fr.last().1, parts[n - 1]).1)));
    if n == 1 {
        assert(fr.drop_last() =~= Seq::<(bool, u8, Seq<u8>)>::empty());
        assert(prev == (idle(), Seq::<Assembled>::empty()));
        assert(parts.drop_last() =~= Seq::<Seq<u8>>::empty());
        assert(concat_chunks(parts) =~= parts[0]);
        assert(pendings(0) =~= Seq::<Assembled>::empty());
    } else {
        lemma_fragment_prefix(op, parts, max, (n - 1) as nat);
        assert(fr.drop_last() =~= fragments(op, parts).take(n - 1));
        assert(parts.take(n - 1) =~= parts.drop_last());
    }
}

} // verus!

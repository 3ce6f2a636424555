use vstd::prelude::*;
use vstd::string::*;
use vstd::utf8::encode_utf8;
use crate::run_loop::ControlMessage;

verus! {

/// Why bytes from the peer could not be decoded.
#[derive(PartialEq, Eq, Structural, Clone, Copy, Debug)]
pub enum CodecError {
    /// Reserved bits set or an unknown opcode.
    MalformedFrame,
    /// The header declares a payload longer than the configured maximum.
    OversizedPayload,
}

pub const OP_CONTINUATION: u8 = 0;
pub const OP_TEXT: u8 = 1;
pub const OP_BINARY: u8 = 2;
pub const OP_CLOSE: u8 = 8;
pub const OP_PING: u8 = 9;
pub const OP_PONG: u8 = 10;

pub open spec fn known_opcode(op: u8) -> bool {
    op == OP_CONTINUATION || op == OP_TEXT || op == OP_BINARY || op == OP_CLOSE || op == OP_PING || op == OP_PONG
}

/// `v` as two bytes, most significant first.
pub open spec fn be2(v: u16) -> Seq<u8> {
    seq![(v >> 8u16) as u8, v as u8]
}

/// `v` as eight bytes, most significant first.
pub open spec fn be8(v: u64) -> Seq<u8> {
    seq![(v >> 56u64) as u8, (v >> 48u64) as u8, (v >> 40u64) as u8, (v >> 32u64) as u8,
         (v >> 24u64) as u8, (v >> 16u64) as u8, (v >> 8u64) as u8, v as u8]
}

/// The number whose two bytes, most significant first, are `a`, `b`.
pub open spec fn value2(a: u8, b: u8) -> u64 {
    ((a as u64) << 8u64) | (b as u64)
}

/// The number whose eight bytes, most significant first, start `s` at `i`.
pub open spec fn value8(s: Seq<u8>, i: int) -> u64 {
    ((s[i] as u64) << 56u64) | ((s[i + 1] as u64) << 48u64) | ((s[i + 2] as u64) << 40u64)
        | ((s[i + 3] as u64) << 32u64) | ((s[i + 4] as u64) << 24u64) | ((s[i + 5] as u64) << 16u64)
        | ((s[i + 6] as u64) << 8u64) | (s[i + 7] as u64)
}

/// `p` with each byte XORed with the key byte at its position modulo four.
pub open spec fn apply_mask(p: Seq<u8>, key: Seq<u8>) -> Seq<u8> {
    Seq::new(p.len(), |i: int| p[i] ^ key[i % 4])
}

/// The extended payload length field for a payload of `len` bytes.
pub open spec fn length_field(len: u64) -> Seq<u8> {
    if len < 126 {
        Seq::empty()
    } else if len < 65536 {
        be2(len as u16)
    } else {
        be8(len)
    }
}

/// The 7-bit length code for a payload of `len` bytes.
pub open spec fn length_code(len: u64) -> u8 {
    if len < 126 { len as u8 } else if len < 65536 { 126 } else { 127 }
}

/// A final, masked frame with opcode `op`, mask `key` and payload `p`, as
/// written on the wire by a client.
pub open spec fn client_frame(op: u8, key: Seq<u8>, p: Seq<u8>) -> Seq<u8> {
    seq![0x80u8 | op, 0x80u8 | length_code(p.len() as u64)] + length_field(p.len() as u64) + key
        + apply_mask(p, key)
}

/// One frame as read from the wire, unmasked.
pub struct Frame {
    pub fin: bool,
    pub opcode: u8,
    pub payload: Vec<u8>,
}

/// What the front of a buffer holds.
pub enum Parsed {
    /// Not a whole frame yet.
    Incomplete,
    Failed(CodecError),
    /// A whole frame, which takes up the first `consumed` bytes.
    Complete { fin: bool, opcode: u8, payload: Seq<u8>, consumed: nat },
}

/// How many bytes follow the first two to give the payload length, by the
/// 7-bit length code.
pub open spec fn extra_length_bytes(code: u8) -> nat {
    if code == 126 { 2 } else if code == 127 { 8 } else { 0 }
}

/// The declared payload length, once the length bytes are all there.
pub open spec fn declared_length(buf: Seq<u8>) -> u64 {
    let code = buf[1] & 0x7f;
    if code == 126 {
        value2(buf[2], buf[3])
    } else if code == 127 {
        value8(buf, 2)
    } else {
        code as u64
    }
}

/// Reads the frame at the front of `buf`, whose payload may be at most `max`
/// bytes long. The limit applies as soon as the length is known, before
/// the payload has arrived.
pub open spec fn parse_frame(buf: Seq<u8>, max: u64) -> Parsed {
    if buf.len() < 2 {
        Parsed::Incomplete
    } else if buf[0] & 0x70 != 0 || !known_opcode(buf[0] & 0x0f) {
        Parsed::Failed(CodecError::MalformedFrame)
    } else {
        let code = buf[1] & 0x7f;
        let head = 2 + extra_length_bytes(code);
        if buf.len() < head {
            Parsed::Incomplete
        } else {
            let len = declared_length(buf);
            if len > max {
                Parsed::Failed(CodecError::OversizedPayload)
            } else {
                let masked = buf[1] & 0x80 != 0;
                let start = head + if masked { 4nat } else { 0nat };
                let end = (start + len) as nat;
                if buf.len() < end {
                    Parsed::Incomplete
                } else {
                    let body = buf.subrange(start as int, end as int);
                    Parsed::Complete {
                        fin: buf[0] & 0x80 != 0,
                        opcode: buf[0] & 0x0f,
                        payload: if masked { apply_mask(body, buf.subrange(head as int, (head + 4) as int)) } else { body },
                        consumed: end,
                    }
                }
            }
        }
    }
}

proof fn lemma_be2_round_trip(v: u16)
    ensures
        value2(be2(v)[0], be2(v)[1]) == v as u64,
{
    assert((((((v >> 8u16) as u8) as u64) << 8u64) | (((v as u8) as u64))) == v as u64) by (bit_vector);
}

proof fn lemma_be8_round_trip(v: u64)
    ensures
        value8(be8(v), 0) == v,
{
    let s = be8(v);
    assert(value8(s, 0) == ((((v >> 56u64) as u8) as u64) << 56u64) | ((((v >> 48u64) as u8) as u64) << 48u64)
        | ((((v >> 40u64) as u8) as u64) << 40u64) | ((((v >> 32u64) as u8) as u64) << 32u64)
        | ((((v >> 24u64) as u8) as u64) << 24u64) | ((((v >> 16u64) as u8) as u64) << 16u64)
        | ((((v >> 8u64) as u8) as u64) << 8u64) | ((v as u8) as u64));
    assert(((((v >> 56u64) as u8) as u64) << 56u64) | ((((v >> 48u64) as u8) as u64) << 48u64)
        | ((((v >> 40u64) as u8) as u64) << 40u64) | ((((v >> 32u64) as u8) as u64) << 32u64)
        | ((((v >> 24u64) as u8) as u64) << 24u64) | ((((v >> 16u64) as u8) as u64) << 16u64)
        | ((((v >> 8u64) as u8) as u64) << 8u64) | ((v as u8) as u64) == v) by (bit_vector);
}

proof fn lemma_mask_twice(p: Seq<u8>, key: Seq<u8>)
    requires
        key.len() == 4,
    ensures
        apply_mask(apply_mask(p, key), key) == p,
{
    assert forall|i: int| 0 <= i < p.len() implies #[trigger] apply_mask(apply_mask(p, key), key)[i] == p[i] by {
        let a = p[i];
        let k = key[i % 4];
        assert((a ^ k) ^ k == a) by (bit_vector);
    }
    assert(apply_mask(apply_mask(p, key), key) =~= p);
}

/// The length of the client frame for a payload of `n` bytes.
pub open spec fn client_frame_len(n: nat) -> nat {
    2 + extra_length_bytes(length_code(n as u64)) + 4 + n
}

proof fn lemma_client_frame_header(op: u8, key: Seq<u8>, p: Seq<u8>)
    requires
        known_opcode(op),
        key.len() == 4,
        p.len() <= u64::MAX,
    ensures
        ({
            let f = client_frame(op, key, p);
            let code = f[1] & 0x7f;
            let head = 2 + extra_length_bytes(code);
            &&& f.len() == client_frame_len(p.len())
            &&& f[0] & 0x70 == 0
            &&& f[0] & 0x0f == op
            &&& f[0] & 0x80 != 0
            &&& f[1] & 0x80 != 0
            &&& code == length_code(p.len() as u64)
            &&& head == 2 + length_field(p.len() as u64).len()
            &&& f.len() >= head ==> declared_length(f) == p.len()
            &&& f.subrange(head as int, (head + 4) as int) == key
            &&& f.subrange((head + 4) as int, f.len() as int) == apply_mask(p, key)
        }),
{
    let f = client_frame(op, key, p);
    let n = p.len() as u64;
    let c = length_code(n);
    let lf = length_field(n);
    assert(op <= 10);
    assert((0x80u8 | op) & 0x70 == 0 && (0x80u8 | op) & 0x0f == op && (0x80u8 | op) & 0x80 != 0) by (bit_vector)
        requires op <= 10;
    assert(c < 128);
    assert((0x80u8 | c) & 0x7f == c && (0x80u8 | c) & 0x80 != 0) by (bit_vector)
        requires c < 128;
    let head = 2 + lf.len();
    assert(f[0] == 0x80u8 | op);
    assert(f[1] == 0x80u8 | c);
    if n < 126 {
        assert(lf.len() == 0);
    } else if n < 65536 {
        assert(f[2] == be2(n as u16)[0] && f[3] == be2(n as u16)[1]);
        lemma_be2_round_trip(n as u16);
    } else {
        assert(f.subrange(2, 10) =~= be8(n));
        assert(value8(f, 2) == value8(be8(n), 0)) by {
            assert forall|j: int| 0 <= j < 8 implies f[2 + j] == #[trigger] be8(n)[j] by {
                assert(f.subrange(2, 10)[j] == f[2 + j]);
            }
        }
        lemma_be8_round_trip(n);
    }
    assert(f.subrange(head as int, (head + 4) as int) =~= key);
    assert(f.subrange((head + 4) as int, f.len() as int) =~= apply_mask(p, key));
}

/// Decoding a masked frame that a client wrote gives back its opcode and
/// payload, as one final frame that takes up all of its bytes.
pub proof fn lemma_client_frame_round_trip(op: u8, key: Seq<u8>, p: Seq<u8>, max: u64)
    requires
        known_opcode(op),
        key.len() == 4,
        p.len() <= max,
    ensures
        parse_frame(client_frame(op, key, p), max) == (Parsed::Complete {
            fin: true,
            opcode: op,
            payload: p,
            consumed: client_frame_len(p.len()),
        }),
{
    lemma_client_frame_header(op, key, p);
    lemma_mask_twice(p, key);
}

/// Any proper prefix of a masked client frame within the size limit is
/// incomplete: nothing is decoded from it yet.
pub proof fn lemma_client_frame_prefix_incomplete(op: u8, key: Seq<u8>, p: Seq<u8>, max: u64, k: nat)
    requires
        known_opcode(op),
        key.len() == 4,
        p.len() <= max,
        k < client_frame_len(p.len()),
    ensures
        parse_frame(client_frame(op, key, p).take(k as int), max) is Incomplete,
{
    lemma_client_frame_header(op, key, p);
    let f = client_frame(op, key, p);
    let b = f.take(k as int);
    if k >= 2 {
        assert(b[0] == f[0] && b[1] == f[1]);
        let head = 2 + extra_length_bytes(b[1] & 0x7f);
        if k >= head {
            assert forall|j: int| 0 <= j < head implies b[j] == f[j] by {}
            assert(declared_length(b) == declared_length(f));
        }
    }
}

/// Writes a final, masked frame with opcode `op`, mask `key` and payload `payload`.
pub fn encode_client_frame(op: u8, key: &[u8; 4], payload: &[u8]) -> (r: Vec<u8>)
    requires
        known_opcode(op),
    ensures
        r@ == client_frame(op, key@, payload@),
{
    let n = payload.len();
    let ghost lf = length_field(n as u64);
    let mut out: Vec<u8> = Vec::new();
    out.push(0x80u8 | op);
    let code: u8 = if n < 126 { n as u8 } else if n < 65536 { 126 } else { 127 };
    out.push(0x80u8 | code);
    if n >= 126 && n < 65536 {
        let v = n as u16;
        out.push((v >> 8u16) as u8);
        out.push(v as u8);
    } else if n >= 65536 {
        let v = n as u64;
        out.push((v >> 56u64) as u8);
        out.push((v >> 48u64) as u8);
        out.push((v >> 40u64) as u8);
        out.push((v >> 32u64) as u8);
        out.push((v >> 24u64) as u8);
        out.push((v >> 16u64) as u8);
        out.push((v >> 8u64) as u8);
        out.push(v as u8);
    }
    assert(out@ =~= seq![0x80u8 | op, 0x80u8 | length_code(n as u64)] + lf);
    out.push(key[0]);
    out.push(key[1]);
    out.push(key[2]);
    out.push(key[3]);
    let ghost head = out@;
    assert(head =~= seq![0x80u8 | op, 0x80u8 | length_code(n as u64)] + lf + key@);
    let mut i: usize = 0;
    while i < n
        invariant
            n == payload@.len(),
            key@.len() == 4,
            i <= n,
            out@ == head + apply_mask(payload@, key@).take(i as int),
        decreases n - i,
    {
        out.push(payload[i] ^ key[i % 4]);
        assert(out@ =~= head + apply_mask(payload@, key@).take(i + 1));
        i = i + 1;
    }
    assert(apply_mask(payload@, key@).take(n as int) =~= apply_mask(payload@, key@));
    out
}

/// The opcode of the frame that carries `m`.
pub open spec fn opcode_of(m: ControlMessage) -> u8 {
    match m {
        ControlMessage::SendText(_) => OP_TEXT,
        ControlMessage::SendBinary(_) => OP_BINARY,
        ControlMessage::Close => OP_CLOSE,
        ControlMessage::Ping(_) => OP_PING,
    }
}

/// The payload of the frame that carries `m`: a text's UTF-8 bytes, the bytes
/// of a binary message or ping, nothing for a close.
pub open spec fn payload_of(m: ControlMessage) -> Seq<u8> {
    match m {
        ControlMessage::SendText(t) => encode_utf8(t@),
        ControlMessage::SendBinary(b) => b@,
        ControlMessage::Close => Seq::empty(),
        ControlMessage::Ping(b) => b@,
    }
}

/// Writes the frame that carries directive `m` to the peer, masked with `key`.
pub fn encode(m: &ControlMessage, key: &[u8; 4]) -> (r: Vec<u8>)
    ensures
        r@ == client_frame(opcode_of(*m), key@, payload_of(*m)),
{
    match m {
        ControlMessage::SendText(t) => encode_client_frame(OP_TEXT, key, t.as_str().as_bytes()),
        ControlMessage::SendBinary(b) => encode_client_frame(OP_BINARY, key, b.as_slice()),
        ControlMessage::Close => {
            let empty: Vec<u8> = Vec::new();
            encode_client_frame(OP_CLOSE, key, empty.as_slice())
        },
        ControlMessage::Ping(b) => encode_client_frame(OP_PING, key, b.as_slice()),
    }
}

/// Decodes the byte stream from the peer into frames. Bytes may arrive in
/// pieces of any size: they are kept until a whole frame is there.
pub struct FrameDecoder {
    buf: Vec<u8>,
    max_payload: u64,
}

impl FrameDecoder {
    /// The bytes received and not yet decoded.
    pub closed spec fn buffered(&self) -> Seq<u8> {
        self.buf@
    }

    /// The longest payload accepted.
    pub closed spec fn max_payload(&self) -> u64 {
        self.max_payload
    }

    pub fn new(max_payload: u64) -> (r: FrameDecoder)
        ensures
            r.buffered() == Seq::<u8>::empty(),
            r.max_payload() == max_payload,
    {
        FrameDecoder { buf: Vec::new(), max_payload }
    }

    /// Takes in the next bytes from the peer.
    pub fn feed(&mut self, chunk: &[u8])
        ensures
            final(self).buffered() == old(self).buffered() + chunk@,
            final(self).max_payload() == old(self).max_payload(),
    {
        let mut i: usize = 0;
        while i < chunk.len()
            invariant
                i <= chunk@.len(),
                self.buf@ == old(self).buf@ + chunk@.take(i as int),
                self.max_payload == old(self).max_payload,
            decreases chunk@.len() - i,
        {
            self.buf.push(chunk[i]);
            assert(self.buf@ =~= old(self).buf@ + chunk@.take(i + 1));
            i = i + 1;
        }
        assert(chunk@.take(i as int) =~= chunk@);
    }

    /// Decodes the frame at the front of the buffered bytes: none while it is
    /// incomplete, the error where it is malformed or too long (and the
    /// buffer is then left as it was), else the frame, whose bytes leave the buffer.
    pub fn next_frame(&mut self) -> (r: Result<Option<Frame>, CodecError>)
        ensures
            final(self).max_payload() == old(self).max_payload(),
            match parse_frame(old(self).buffered(), old(self).max_payload()) {
                Parsed::Incomplete => r matches Ok(None) && final(self).buffered() == old(self).buffered(),
                Parsed::Failed(e) => r == Err::<Option<Frame>, CodecError>(e)
                    && final(self).buffered() == old(self).buffered(),
                Parsed::Complete { fin, opcode, payload, consumed } => r matches Ok(Some(f))
                    && f.fin == fin && f.opcode == opcode && f.payload@ == payload
                    && final(self).buffered() == old(self).buffered().skip(consumed as int),
            },
    {
        let n = self.buf.len();
        if n < 2 {
            return Ok(None);
        }
        let b0 = self.buf[0];
        let b1 = self.buf[1];
        let op = b0 & 0x0f;
        if b0 & 0x70 != 0 || !(op == OP_CONTINUATION || op == OP_TEXT || op == OP_BINARY || op == OP_CLOSE
            || op == OP_PING || op == OP_PONG) {
            return Err(CodecError::MalformedFrame);
        }
        let code = b1 & 0x7f;
        let head: usize = if code == 126 { 4 } else if code == 127 { 10 } else { 2 };
        if n < head {
            return Ok(None);
        }
        let len: u64 = if code == 126 {
            ((self.buf[2] as u64) << 8u64) | (self.buf[3] as u64)
        } else if code == 127 {
            ((self.buf[2] as u64) << 56u64) | ((self.buf[3] as u64) << 48u64) | ((self.buf[4] as u64) << 40u64)
                | ((self.buf[5] as u64) << 32u64) | ((self.buf[6] as u64) << 24u64) | ((self.buf[7] as u64) << 16u64)
                | ((self.buf[8] as u64) << 8u64) | (self.buf[9] as u64)
        } else {
            code as u64
        };
        assert(len == declared_length(self.buf@));
        if len > self.max_payload {
            return Err(CodecError::OversizedPayload);
        }
        let masked = b1 & 0x80 != 0;
        let start: usize = if masked { head + 4 } else { head };
        if n < start || ((n - start) as u64) < len {
            return Ok(None);
        }
        let end: usize = start + len as usize;
        let ghost body = self.buf@.subrange(start as int, end as int);
        let ghost key = self.buf@.subrange(head as int, head + 4);
        let mut payload: Vec<u8> = Vec::new();
        let mut i: usize = start;
        while i < end
            invariant
                start <= i <= end,
                end <= n,
                n == self.buf@.len(),
                head + 4 <= n || !masked,
                masked ==> start == head + 4,
                body == self.buf@.subrange(start as int, end as int),
                key == self.buf@.subrange(head as int, head + 4),
                masked ==> payload@ == apply_mask(body, key).take(i - start),
                !masked ==> payload@ == body.take(i - start),
            decreases end - i,
        {
            let b = self.buf[i];
            if masked {
                payload.push(b ^ self.buf[head + (i - start) % 4]);
                assert(payload@ =~= apply_mask(body, key).take(i + 1 - start));
            } else {
                payload.push(b);
                assert(payload@ =~= body.take(i + 1 - start));
            }
            i = i + 1;
        }
        assert(apply_mask(body, key).take(end - start) =~= apply_mask(body, key));
        assert(body.take(end - start) =~= body);
        let mut rest: Vec<u8> = Vec::new();
        let mut j: usize = end;
        while j < n
            invariant
                end <= j <= n,
                n == self.buf@.len(),
                rest@ == self.buf@.subrange(end as int, j as int),
            decreases n - j,
        {
            rest.push(self.buf[j]);
            assert(rest@ =~= self.buf@.subrange(end as int, j + 1));
            j = j + 1;
        }
        assert(rest@ =~= self.buf@.skip(end as int));
        self.buf = rest;
        Ok(Some(Frame { fin: b0 & 0x80 != 0, opcode: op, payload }))
    }
}

/// Encoding a directive and decoding the bytes gives back one final frame
/// with the directive's opcode and payload, which takes up all the bytes.
pub proof fn lemma_encode_decode_round_trip(m: ControlMessage, key: Seq<u8>, max: u64)
    requires
        key.len() == 4,
        payload_of(m).len() <= max,
    ensures
        parse_frame(client_frame(opcode_of(m), key, payload_of(m)), max) == (Parsed::Complete {
            fin: true,
            opcode: opcode_of(m),
            payload: payload_of(m),
            consumed: client_frame_len(payload_of(m).len()),
        }),
{
    lemma_client_frame_round_trip(opcode_of(m), key, payload_of(m), max);
}

/// The pieces of `chunks` one after the other.
pub open spec fn concat_chunks(chunks: Seq<Seq<u8>>) -> Seq<u8>
    decreases chunks.len(),
{
    if chunks.len() == 0 {
        Seq::empty()
    } else {
        concat_chunks(chunks.drop_last()) + chunks.last()
    }
}

pub(crate) proof fn lemma_concat_prefix(chunks: Seq<Seq<u8>>, j: int)
    requires
        0 <= j <= chunks.len(),
    ensures
        concat_chunks(chunks.take(j)).len() <= concat_chunks(chunks).len(),
        concat_chunks(chunks).take(concat_chunks(chunks.take(j)).len() as int) == concat_chunks(chunks.take(j)),
        j < chunks.len() && chunks.last().len() > 0 ==> concat_chunks(chunks.take(j)).len()
            < concat_chunks(chunks).len(),
    decreases chunks.len(),
{
    let all = concat_chunks(chunks);
    if j == chunks.len() {
        assert(chunks.take(j) =~= chunks);
        assert(all.take(all.len() as int) =~= all);
    } else {
        let dl = chunks.drop_last();
        assert(chunks.take(j) =~= dl.take(j));
        if dl.len() > 0 {
            lemma_concat_prefix(dl, j);
        } else {
            assert(dl.take(j) =~= dl);
        }
        let pre = concat_chunks(dl.take(j));
        assert(all == concat_chunks(dl) + chunks.last());
        if dl.len() > 0 {
            assert(all.take(pre.len() as int) =~= concat_chunks(dl).take(pre.len() as int));
        } else {
            assert(pre =~= Seq::<u8>::empty());
            assert(all.take(0) =~= Seq::<u8>::empty());
        }
    }
}

/// A masked frame cut into pieces of any sizes and fed to the decoder one
/// piece after another decodes to nothing until the last piece is in, and
/// then to exactly that one frame with its whole payload.
pub proof fn lemma_chunked_frame_decodes_once(op: u8, key: Seq<u8>, p: Seq<u8>, max: u64, chunks: Seq<Seq<u8>>)
    requires
        known_opcode(op),
        key.len() == 4,
        p.len() <= max,
        chunks.len() > 0,
        forall|k: int| 0 <= k < chunks.len() ==> (#[trigger] chunks[k]).len() > 0,
        concat_chunks(chunks) == client_frame(op, key, p),
    ensures
        forall|j: int| 0 <= j < chunks.len() ==> parse_frame(#[trigger] concat_chunks(chunks.take(j)), max) is Incomplete,
        parse_frame(concat_chunks(chunks), max) == (Parsed::Complete {
            fin: true,
            opcode: op,
            payload: p,
            consumed: client_frame_len(p.len()),
        }),
{
    lemma_client_frame_round_trip(op, key, p, max);
    lemma_client_frame_header(op, key, p);
    assert forall|j: int| 0 <= j < chunks.len() implies parse_frame(#[trigger] concat_chunks(chunks.take(j)), max) is Incomplete by {
        assert(chunks.last() == chunks[chunks.len() - 1]);
        lemma_concat_prefix(chunks, j);
        let k = concat_chunks(chunks.take(j)).len();
        lemma_client_frame_prefix_incomplete(op, key, p, max, k);
    }
}

/// A frame whose header declares a payload longer than the limit is refused as
/// oversized as soon as its header is in, whatever of its payload has arrived:
/// no part of it is ever decoded.
pub proof fn lemma_oversized_refused(op: u8, key: Seq<u8>, p: Seq<u8>, max: u64, k: nat)
    requires
        known_opcode(op),
        key.len() == 4,
        p.len() > max,
        p.len() <= u64::MAX,
        2 + length_field(p.len() as u64).len() <= k <= client_frame_len(p.len()),
    ensures
        parse_frame(client_frame(op, key, p).take(k as int), max) == Parsed::Failed(CodecError::OversizedPayload),
{
    lemma_client_frame_header(op, key, p);
    let f = client_frame(op, key, p);
    let b = f.take(k as int);
    assert(b[0] == f[0] && b[1] == f[1]);
    let head = 2 + extra_length_bytes(b[1] & 0x7f);
    assert forall|j: int| 0 <= j < head implies b[j] == f[j] by {}
    assert(declared_length(b) == declared_length(f));
}

/// A final, unmasked frame with opcode `op` and payload `p`, as a server
/// writes it on the wire.
pub open spec fn server_frame(op: u8, p: Seq<u8>) -> Seq<u8> {
    seq![0x80u8 | op, length_code(p.len() as u64)] + length_field(p.len() as u64) + p
}

/// The length of the server frame for a payload of `n` bytes.
pub open spec fn server_frame_len(n: nat) -> nat {
    2 + extra_length_bytes(length_code(n as u64)) + n
}

proof fn lemma_server_frame_header(op: u8, p: Seq<u8>)
    requires
        known_opcode(op),
        p.len() <= u64::MAX,
    ensures
        ({
            let f = server_frame(op, p);
            let code = f[1] & 0x7f;
            let head = 2 + extra_length_bytes(code);
            &&& f.len() == server_frame_len(p.len())
            &&& f[0] & 0x70 == 0
            &&& f[0] & 0x0f == op
            &&& f[0] & 0x80 != 0
            &&& f[1] & 0x80 == 0
            &&& code == length_code(p.len() as u64)
            &&& head == 2 + length_field(p.len() as u64).len()
            &&& f.len() >= head ==> declared_length(f) == p.len()
            &&& f.subrange(head as int, f.len() as int) == p
        }),
{
    let f = server_frame(op, p);
    let n = p.len() as u64;
    let c = length_code(n);
    let lf = length_field(n);
    assert(op <= 10);
    assert((0x80u8 | op) & 0x70 == 0 && (0x80u8 | op) & 0x0f == op && (0x80u8 | op) & 0x80 != 0) by (bit_vector)
        requires op <= 10;
    assert(c < 128);
    assert(c & 0x7f == c && c & 0x80 == 0) by (bit_vector)
        requires c < 128;
    let head = 2 + lf.len();
    assert(f[0] == 0x80u8 | op);
    assert(f[1] == c);
    if n < 126 {
        assert(lf.len() == 0);
    } else if n < 65536 {
        assert(f[2] == be2(n as u16)[0] && f[3] == be2(n as u16)[1]);
        lemma_be2_round_trip(n as u16);
    } else {
        assert(value8(f, 2) == value8(be8(n), 0)) by {
            assert forall|j: int| 0 <= j < 8 implies f[2 + j] == #[trigger] be8(n)[j] by {}
        }
        lemma_be8_round_trip(n);
    }
    assert(f.subrange(head as int, f.len() as int) =~= p);
}

/// Decoding an unmasked frame from a server gives back its opcode and
/// payload, as one final frame that takes up all of its bytes.
pub proof fn lemma_server_frame_round_trip(op: u8, p: Seq<u8>, max: u64)
    requires
        known_opcode(op),
        p.len() <= max,
    ensures
        parse_frame(server_frame(op, p), max) == (Parsed::Complete {
            fin: true,
            opcode: op,
            payload: p,
            consumed: server_frame_len(p.len()),
        }),
{
    lemma_server_frame_header(op, p);
}

proof fn lemma_server_frame_prefix_incomplete(op: u8, p: Seq<u8>, max: u64, k: nat)
    requires
        known_opcode(op),
        p.len() <= max,
        k < server_frame_len(p.len()),
    ensures
        parse_frame(server_frame(op, p).take(k as int), max) is Incomplete,
{
    lemma_server_frame_header(op, p);
    let f = server_frame(op, p);
    let b = f.take(k as int);
    if k >= 2 {
        assert(b[0] == f[0] && b[1] == f[1]);
        let head = 2 + extra_length_bytes(b[1] & 0x7f);
        if k >= head {
            assert forall|j: int| 0 <= j < head implies b[j] == f[j] by {}
            assert(declared_length(b) == declared_length(f));
        }
    }
}

/// An unmasked frame from a server, cut into pieces of any sizes and fed to
/// the decoder one piece after another, decodes to nothing until the last
/// piece is in, and then to exactly that one frame with its whole payload.
pub proof fn lemma_chunked_server_frame_decodes_once(op: u8, p: Seq<u8>, max: u64, chunks: Seq<Seq<u8>>)
    requires
        known_opcode(op),
        p.len() <= max,
        chunks.len() > 0,
        forall|k: int| 0 <= k < chunks.len() ==> (#[trigger] chunks[k]).len() > 0,
        concat_chunks(chunks) == server_frame(op, p),
    ensures
        forall|j: int| 0 <= j < chunks.len() ==> parse_frame(#[trigger] concat_chunks(chunks.take(j)), max) is Incomplete,
        parse_frame(concat_chunks(chunks), max) == (Parsed::Complete {
            fin: true,
            opcode: op,
            payload: p,
            consumed: server_frame_len(p.len()),
        }),
{
    lemma_server_frame_round_trip(op, p, max);
    lemma_server_frame_header(op, p);
    assert forall|j: int| 0 <= j < chunks.len() implies parse_frame(#[trigger] concat_chunks(chunks.take(j)), max) is Incomplete by {
        assert(chunks.last() == chunks[chunks.len() - 1]);
        lemma_concat_prefix(chunks, j);
        let k = concat_chunks(chunks.take(j)).len();
        lemma_server_frame_prefix_incomplete(op, p, max, k);
    }
}

/// An unmasked frame from a server whose header declares a payload longer
/// than the limit is refused as oversized as soon as its header is in,
/// whatever of its payload has arrived.
pub proof fn lemma_oversized_server_frame_refused(op: u8, p: Seq<u8>, max: u64, k: nat)
    requires
        known_opcode(op),
        p.len() > max,
        p.len() <= u64::MAX,
        2 + length_field(p.len() as u64).len() <= k <= server_frame_len(p.len()),
    ensures
        parse_frame(server_frame(op, p).take(k as int), max) == Parsed::Failed(CodecError::OversizedPayload),
{
    lemma_server_frame_header(op, p);
    let f = server_frame(op, p);
    let b = f.take(k as int);
    assert(b[0] == f[0] && b[1] == f[1]);
    let head = 2 + extra_length_bytes(b[1] & 0x7f);
    assert forall|j: int| 0 <= j < head implies b[j] == f[j] by {}
    assert(declared_length(b) == declared_length(f));
}

} // verus!
